//! Launcher, poller, tree replayer and restore orchestrator: reconciles
//! saved window records with the live window set, launching and awaiting
//! missing applications, and replays the inferred split topology.

use vstd::prelude::*;
use vstd::seq_lib::group_to_multiset_ensures;
use crate::adapter::AdapterError;
use crate::adapter::Command;
use crate::adapter::CompositorAdapter;
use crate::adapter::SplitDirection;
use crate::adapter::dispatch_best_effort;
use crate::addresses::AddressSet;
use crate::geometry::Rect;
use crate::geometry::SplitAxis;
use crate::geometry::SplitTree;
use crate::geometry::build_split_tree;
use crate::geometry::lemma_split_tree_leaves;
use crate::geometry::spec_build_split_tree;
use crate::geometry::spec_leaves;
use crate::matcher::launched_window_matches;
use crate::matcher::spec_matches;
use crate::position::restore_window_position;
use crate::position::spec_position_plan;
use crate::records::HyprClient;
use crate::records::SessionSnapshot;
use crate::strutil::lower_of;
use crate::strutil::lowercase;

verus! {

/// Interval between two polls of the live window directory, in milliseconds.
pub const POLL_INTERVAL_MS: u64 = 250;

/// Default bound on the wait for a launched window to appear, in
/// milliseconds.
pub const DEFAULT_LAUNCH_TIMEOUT_MS: u64 = 10_000;

/// Workspace refocused at the end when the active workspace could not be
/// determined at the start.
pub const DEFAULT_WORKSPACE_ID: i32 = 1;

/// A failure while restoring a window or a session.
#[derive(PartialEq, Eq, Debug)]
pub enum RestoreError {
    /// The control channel failed while querying live state or positioning a
    /// window.
    Adapter { error: AdapterError },
    /// The execute command that should relaunch a missing window's
    /// application failed; carries the command line that was launched.
    LaunchFailed { command: String, error: AdapterError },
    /// No window matching the saved record appeared within the bound; names
    /// the saved window's class.
    LaunchTimeout { class: String },
}

/// The executable name launched for a window class: the class lower-cased,
/// with a small alias table for applications whose class does not equal
/// their executable name.
pub open spec fn spec_resolve_command(class: Seq<char>) -> Seq<char> {
    let lower = lower_of(class);
    if lower == "brave-browser"@ {
        "brave"@
    } else if lower == "code"@ {
        "code"@
    } else if lower == "google-chrome"@ {
        "google-chrome-stable"@
    } else if lower == "com.mitchellh.ghostty"@ {
        "ghostty"@
    } else {
        lower
    }
}

/// Resolves the executable name launched for a window class.
pub fn resolve_command(class: &str) -> (r: String)
    ensures
        r@ == spec_resolve_command(class@),
{
    let lower = lowercase(class);
    if lower == String::from_str("brave-browser") {
        String::from_str("brave")
    } else if lower == String::from_str("code") {
        String::from_str("code")
    } else if lower == String::from_str("google-chrome") {
        String::from_str("google-chrome-stable")
    } else if lower == String::from_str("com.mitchellh.ghostty") {
        String::from_str("ghostty")
    } else {
        lower
    }
}

/// The command line used to relaunch a saved window: its resolved executable
/// path when known, else the resolved executable name of its class,
/// preferring the initial class when non-empty.
pub open spec fn spec_launch_command(saved: HyprClient) -> Seq<char> {
    if saved.exec_path is Some {
        saved.exec_path->Some_0@
    } else if saved.initial_class@.len() > 0 {
        spec_resolve_command(saved.initial_class@)
    } else {
        spec_resolve_command(saved.class@)
    }
}

/// Resolves the command line used to relaunch a saved window.
pub fn launch_command(saved: &HyprClient) -> (r: String)
    ensures
        r@ == spec_launch_command(*saved),
{
    match &saved.exec_path {
        Option::Some(path) => path.clone(),
        Option::None => {
            if !saved.initial_class.as_str().is_empty() {
                resolve_command(saved.initial_class.as_str())
            } else {
                resolve_command(saved.class.as_str())
            }
        },
    }
}

/// Whether some record in `pool` matches `saved`.
pub open spec fn spec_has_match(pool: Seq<HyprClient>, saved: HyprClient) -> bool {
    exists|i: int| 0 <= i < pool.len() && spec_matches(pool[i], saved)
}

/// The position of the first record in `pool` matching `saved`, when one
/// exists.
pub open spec fn spec_first_match_index(pool: Seq<HyprClient>, saved: HyprClient) -> int {
    choose|i: int|
        0 <= i < pool.len() && spec_matches(pool[i], saved) && (forall|k: int|
            0 <= k < i ==> !spec_matches(#[trigger] pool[k], saved))
}

/// A position that matches, with no match before it, is the first match.
proof fn lemma_first_match_at(pool: Seq<HyprClient>, saved: HyprClient, i: int)
    requires
        0 <= i < pool.len(),
        spec_matches(pool[i], saved),
        forall|k: int| 0 <= k < i ==> !spec_matches(#[trigger] pool[k], saved),
    ensures
        spec_has_match(pool, saved),
        spec_first_match_index(pool, saved) == i,
{
    assert(spec_has_match(pool, saved));
    let j = spec_first_match_index(pool, saved);
    assert(0 <= j < pool.len() && spec_matches(pool[j], saved) && (forall|k: int|
        0 <= k < j ==> !spec_matches(#[trigger] pool[k], saved))) by {
        assert(0 <= i < pool.len() && spec_matches(pool[i], saved) && (forall|k: int|
            0 <= k < i ==> !spec_matches(#[trigger] pool[k], saved)));
    }
    if j < i {
        assert(!spec_matches(pool[j], saved));
    }
    if i < j {
        assert(!spec_matches(pool[i], saved));
    }
}

/// Finds the position of the first record in `pool` that matches `saved`.
#[verifier::loop_isolation(false)]
fn find_pool_match(pool: &Vec<HyprClient>, saved: &HyprClient) -> (r: Option<usize>)
    ensures
        match r {
            Option::Some(i) => spec_has_match(pool@, *saved) && spec_first_match_index(
                pool@,
                *saved,
            ) == i as int && i < pool@.len() && spec_matches(pool@[i as int], *saved),
            Option::None => !spec_has_match(pool@, *saved),
        },
{
    let mut i: usize = 0;
    while i < pool.len()
        invariant
            i <= pool@.len(),
            forall|k: int| 0 <= k < i as int ==> !spec_matches(#[trigger] pool@[k], *saved),
        decreases pool@.len() - i,
    {
        if launched_window_matches(&pool[i], saved) {
            proof {
                lemma_first_match_at(pool@, *saved, i as int);
            }
            return Option::Some(i);
        }
        i += 1;
    }
    Option::None
}

/// Whether `c` is a freshly spawned match for `saved`: it satisfies the
/// matcher and its address is neither in the baseline nor already claimed.
pub open spec fn spec_is_fresh_match(
    c: HyprClient,
    baseline: Set<Seq<char>>,
    claimed: Set<Seq<char>>,
    saved: HyprClient,
) -> bool {
    spec_matches(c, saved) && !baseline.contains(c.address@) && !claimed.contains(c.address@)
}

/// Finds a freshly spawned match: a record matching `saved` whose address is
/// neither in the baseline nor already claimed. `None` means no record of
/// `state` is such a match.
#[verifier::loop_isolation(false)]
fn find_new_match(
    state: &Vec<HyprClient>,
    baseline_addresses: &AddressSet,
    restored_addresses: &AddressSet,
    saved: &HyprClient,
) -> (r: Option<usize>)
    ensures
        match r {
            Option::Some(i) => i < state@.len() && spec_is_fresh_match(
                state@[i as int],
                baseline_addresses@,
                restored_addresses@,
                *saved,
            ),
            Option::None => forall|i: int|
                0 <= i < state@.len() ==> !spec_is_fresh_match(
                    #[trigger] state@[i],
                    baseline_addresses@,
                    restored_addresses@,
                    *saved,
                ),
        },
{
    let mut i: usize = 0;
    while i < state.len()
        invariant
            i <= state@.len(),
            forall|k: int|
                0 <= k < i as int ==> !spec_is_fresh_match(
                    #[trigger] state@[k],
                    baseline_addresses@,
                    restored_addresses@,
                    *saved,
                ),
        decreases state@.len() - i,
    {
        let candidate = &state[i];
        if !baseline_addresses.contains(candidate.address.as_str())
            && !restored_addresses.contains(candidate.address.as_str())
            && launched_window_matches(candidate, saved) {
            return Option::Some(i);
        }
        i += 1;
    }
    Option::None
}

/// Launcher and poller: produces a live window satisfying the matcher for
/// `saved_client` and applies its saved position, or fails.
///
/// The available pool is scanned first; a hit is claimed (removed from the
/// pool, its address added to the restored set) without spawning anything.
/// Otherwise the resolved launch command is executed in the saved record's
/// workspace, and the live directory is re-queried every poll interval, up
/// to the timeout, for a fresh matching address outside the baseline and the
/// restored set.
#[verifier::loop_isolation(false)]
pub fn ensure_restored<A: CompositorAdapter>(
    adapter: &mut A,
    saved_client: &HyprClient,
    available_clients: &mut Vec<HyprClient>,
    baseline_addresses: &AddressSet,
    restored_addresses: &mut AddressSet,
    timeout_ms: u64,
) -> (r: Result<HyprClient, RestoreError>)
    ensures
        match r {
            Result::Ok(c) => spec_matches(c, *saved_client) && final(restored_addresses)@ == old(
                restored_addresses,
            )@.insert(c.address@),
            Result::Err(_) => final(restored_addresses)@ == old(restored_addresses)@,
        },
        (if spec_has_match(old(available_clients)@, *saved_client) {
            let i = spec_first_match_index(old(available_clients)@, *saved_client);
            final(available_clients)@ == old(available_clients)@.remove(i) && (match r {
                Result::Ok(c) => c == old(available_clients)@[i],
                Result::Err(e) => e matches RestoreError::Adapter { .. },
            })
        } else {
            final(available_clients)@ == old(available_clients)@ && (match r {
                Result::Ok(c) => spec_is_fresh_match(
                    c,
                    baseline_addresses@,
                    old(restored_addresses)@,
                    *saved_client,
                ),
                Result::Err(_) => true,
            })
        }),
        (spec_has_match(old(available_clients)@, *saved_client) && spec_position_plan(
            old(available_clients)@[spec_first_match_index(old(available_clients)@, *saved_client)],
            *saved_client,
        ) == Seq::<Command>::empty() ==> r is Ok),
        (r matches Result::Err(RestoreError::LaunchTimeout { class }) ==> class@
            == saved_client.class@),
        (r matches Result::Err(RestoreError::LaunchFailed { command, error: _ }) ==> command@
            == spec_launch_command(*saved_client)),
{
    match find_pool_match(available_clients, saved_client) {
        Option::Some(index) => {
            let current_client = available_clients.remove(index);
            match restore_window_position(adapter, &current_client, saved_client) {
                Result::Ok(()) => {},
                Result::Err(e) => {
                    return Result::Err(RestoreError::Adapter { error: e });
                },
            }
            restored_addresses.insert(current_client.address.clone());
            return Result::Ok(current_client);
        },
        Option::None => {},
    }
    let command = launch_command(saved_client);
    match adapter.dispatch(
        &Command::ExecInWorkspace {
            workspace_id: saved_client.workspace.id,
            command: command.clone(),
        },
    ) {
        Result::Ok(()) => {},
        Result::Err(e) => {
            return Result::Err(RestoreError::LaunchFailed { command, error: e });
        },
    }
    let max_polls: u64 = timeout_ms / POLL_INTERVAL_MS;
    let mut poll: u64 = 0;
    while poll < max_polls
        invariant
            restored_addresses@ == old(restored_addresses)@,
            available_clients@ == old(available_clients)@,
        decreases max_polls - poll,
    {
        let mut state = match adapter.query_clients() {
            Result::Ok(s) => s,
            Result::Err(e) => {
                return Result::Err(RestoreError::Adapter { error: e });
            },
        };
        match find_new_match(&state, baseline_addresses, restored_addresses, saved_client) {
            Option::Some(index) => {
                let current_client = state.remove(index);
                match restore_window_position(adapter, &current_client, saved_client) {
                    Result::Ok(()) => {},
                    Result::Err(e) => {
                        return Result::Err(RestoreError::Adapter { error: e });
                    },
                }
                restored_addresses.insert(current_client.address.clone());
                return Result::Ok(current_client);
            },
            Option::None => {},
        }
        adapter.sleep_poll_interval();
        poll = poll + 1;
    }
    Result::Err(RestoreError::LaunchTimeout { class: saved_client.class.clone() })
}

/// Whether every leaf of a split tree indexes into a group of `n` windows.
pub open spec fn spec_tree_in_bounds(t: SplitTree, n: int) -> bool
    decreases t,
{
    match t {
        SplitTree::Leaf(i) => (i as int) < n,
        SplitTree::Node { axis, first, second } => spec_tree_in_bounds(*first, n)
            && spec_tree_in_bounds(*second, n),
    }
}

/// The index at the leftmost leaf of a split tree: the lineage whose
/// address anchors every higher-level split hint.
pub open spec fn spec_leftmost_leaf(t: SplitTree) -> usize
    decreases t,
{
    match t {
        SplitTree::Leaf(i) => i,
        SplitTree::Node { axis, first, second } => spec_leftmost_leaf(*first),
    }
}

/// The saved record is accounted for in `claimed`: some window satisfying
/// the matcher for it has its address in the set.
pub open spec fn spec_restored_in(saved: HyprClient, claimed: Set<Seq<char>>) -> bool {
    exists|c: HyprClient| spec_matches(c, saved) && claimed.contains(c.address@)
}

/// Accounting survives growth of the claimed set.
pub proof fn lemma_restored_in_monotone(saved: HyprClient, s1: Set<Seq<char>>, s2: Set<Seq<char>>)
    requires
        spec_restored_in(saved, s1),
        s1.subset_of(s2),
    ensures
        spec_restored_in(saved, s2),
{
    let c = choose|c: HyprClient| spec_matches(c, saved) && s1.contains(c.address@);
    assert(spec_matches(c, saved) && s2.contains(c.address@));
}

/// A tree whose leaf values all lie below `n` is in bounds for `n`.
pub proof fn lemma_leaves_in_bounds(t: SplitTree, n: int)
    requires
        forall|i: int| 0 <= i < spec_leaves(t).len() ==> (spec_leaves(t)[i] as int) < n,
    ensures
        spec_tree_in_bounds(t, n),
    decreases t,
{
    match t {
        SplitTree::Leaf(i) => {
            assert(spec_leaves(t)[0] == i);
        },
        SplitTree::Node { axis, first, second } => {
            let lf = spec_leaves(*first);
            let ls = spec_leaves(*second);
            assert(spec_leaves(t) == lf + ls);
            assert forall|i: int| 0 <= i < lf.len() implies (lf[i] as int) < n by {
                assert(spec_leaves(t)[i] == lf[i]);
            }
            assert forall|i: int| 0 <= i < ls.len() implies (ls[i] as int) < n by {
                assert(spec_leaves(t)[lf.len() + i] == ls[i]);
            }
            lemma_leaves_in_bounds(*first, n);
            lemma_leaves_in_bounds(*second, n);
        },
    }
}

/// Tree replayer: walks the split tree, restoring each leaf in order, and
/// issues focus-and-preselect hints between siblings to reproduce the
/// tiling order. Returns the address of the window restored for the
/// leftmost leaf; at every node only the first subtree's address is
/// propagated upward, so higher-level hints anchor on the same leftmost
/// lineage. On success every leaf's saved record is accounted for: a window
/// matching it has its address in the restored set. The focus and preselect
/// commands are best-effort: their failure is tolerated, while a failure to
/// restore a leaf aborts the replay.
pub fn restore_split_tree<A: CompositorAdapter>(
    adapter: &mut A,
    tree: &SplitTree,
    saved_clients: &Vec<HyprClient>,
    available_clients: &mut Vec<HyprClient>,
    baseline_addresses: &AddressSet,
    restored_addresses: &mut AddressSet,
    timeout_ms: u64,
) -> (r: Result<String, RestoreError>)
    requires
        spec_tree_in_bounds(*tree, saved_clients@.len() as int),
    ensures
        old(restored_addresses)@.subset_of(final(restored_addresses)@),
        (r matches Result::Ok(address) ==> final(restored_addresses)@.contains(address@) && (
        exists|c: HyprClient|
            spec_matches(c, saved_clients@[spec_leftmost_leaf(*tree) as int]) && c.address@
                == address@)),
        (r is Ok ==> forall|k: int|
            0 <= k < spec_leaves(*tree).len() ==> #[trigger] spec_restored_in(
                saved_clients@[spec_leaves(*tree)[k] as int],
                final(restored_addresses)@,
            )),
    decreases *tree,
{
    match tree {
        SplitTree::Leaf(index) => {
            let saved = &saved_clients[*index];
            match ensure_restored(
                adapter,
                saved,
                available_clients,
                baseline_addresses,
                restored_addresses,
                timeout_ms,
            ) {
                Result::Ok(current_client) => {
                    proof {
                        assert(spec_leaves(*tree) =~= seq![*index]);
                        assert(spec_leftmost_leaf(*tree) == *index);
                        assert(spec_matches(
                            current_client,
                            saved_clients@[spec_leftmost_leaf(*tree) as int],
                        ) && restored_addresses@.contains(current_client.address@));
                    }
                    Result::Ok(current_client.address)
                },
                Result::Err(e) => Result::Err(e),
            }
        },
        SplitTree::Node { axis, first, second } => {
            let ghost set_entry = restored_addresses@;
            let pivot_address = match restore_split_tree(
                adapter,
                &**first,
                saved_clients,
                available_clients,
                baseline_addresses,
                restored_addresses,
                timeout_ms,
            ) {
                Result::Ok(address) => address,
                Result::Err(e) => {
                    return Result::Err(e);
                },
            };
            let ghost set_after_first = restored_addresses@;
            let _ = dispatch_best_effort(
                adapter,
                &Command::FocusWindow { address: pivot_address.clone() },
            );
            let direction = match axis {
                SplitAxis::X => SplitDirection::Right,
                SplitAxis::Y => SplitDirection::Down,
            };
            let _ = dispatch_best_effort(adapter, &Command::PreselectSplit { direction });
            match restore_split_tree(
                adapter,
                &**second,
                saved_clients,
                available_clients,
                baseline_addresses,
                restored_addresses,
                timeout_ms,
            ) {
                Result::Ok(_second_address) => {
                    proof {
                        let set_final = restored_addresses@;
                        assert(spec_leftmost_leaf(*tree) == spec_leftmost_leaf(**first));
                        assert(set_after_first.contains(pivot_address@));
                        assert(set_after_first.subset_of(set_final));
                        assert(set_final.contains(pivot_address@));
                        let c = choose|c: HyprClient|
                            spec_matches(
                                c,
                                saved_clients@[spec_leftmost_leaf(**first) as int],
                            ) && c.address@ == pivot_address@;
                        assert(spec_matches(c, saved_clients@[spec_leftmost_leaf(*tree) as int])
                            && c.address@ == pivot_address@);
                        let lf = spec_leaves(**first);
                        let ls = spec_leaves(**second);
                        assert(spec_leaves(*tree) == lf + ls);
                        assert forall|k: int|
                            0 <= k < spec_leaves(*tree).len() implies #[trigger] spec_restored_in(
                            saved_clients@[spec_leaves(*tree)[k] as int],
                            set_final,
                        ) by {
                            if k < lf.len() {
                                assert(spec_leaves(*tree)[k] == lf[k]);
                                assert(spec_restored_in(
                                    saved_clients@[lf[k] as int],
                                    set_after_first,
                                ));
                                lemma_restored_in_monotone(
                                    saved_clients@[lf[k] as int],
                                    set_after_first,
                                    set_final,
                                );
                            } else {
                                assert(spec_leaves(*tree)[k] == ls[k - lf.len()]);
                            }
                        }
                    }
                    Result::Ok(pivot_address)
                },
                Result::Err(e) => Result::Err(e),
            }
        },
    }
}

/// Inserts `id` into the strictly ascending list `ids` unless it is already
/// present.
#[verifier::loop_isolation(false)]
fn insert_unique_sorted(ids: &mut Vec<i32>, id: i32)
    requires
        forall|a: int, b: int| 0 <= a < b < old(ids)@.len() ==> old(ids)@[a] < old(ids)@[b],
    ensures
        forall|a: int, b: int| 0 <= a < b < final(ids)@.len() ==> final(ids)@[a] < final(ids)@[b],
        forall|x: i32| final(ids)@.contains(x) <==> (old(ids)@.contains(x) || x == id),
{
    let mut p: usize = 0;
    let mut done = false;
    while !done
        invariant
            p <= ids@.len(),
            forall|k: int| 0 <= k < p as int ==> ids@[k] < id,
            done ==> p == ids@.len() || ids@[p as int] >= id,
            ids@ == old(ids)@,
        decreases ids@.len() - p + (if done { 0int } else { 1int }),
    {
        if p == ids.len() {
            done = true;
        } else {
            let v = ids[p];
            if v >= id {
                done = true;
            } else {
                p += 1;
            }
        }
    }
    let mut already = false;
    if p < ids.len() {
        if ids[p] == id {
            already = true;
        }
    }
    if already {
        proof {
            assert(old(ids)@[p as int] == id);
            assert(old(ids)@.contains(id));
        }
    } else {
        ids.insert(p, id);
        proof {
            assert forall|x: i32| ids@.contains(x) implies (old(ids)@.contains(x) || x == id) by {
                let idx = choose|idx: int| 0 <= idx < ids@.len() && ids@[idx] == x;
                if idx < p as int {
                    assert(old(ids)@[idx] == x);
                } else if idx > p as int {
                    assert(old(ids)@[idx - 1] == x);
                }
            }
            assert forall|x: i32| (old(ids)@.contains(x) || x == id) implies ids@.contains(x) by {
                if x == id {
                    assert(ids@[p as int] == x);
                } else {
                    let idx = choose|idx: int|
                        0 <= idx < old(ids)@.len() && old(ids)@[idx] == x;
                    if idx < p as int {
                        assert(ids@[idx] == x);
                    } else {
                        assert(ids@[idx + 1] == x);
                    }
                }
            }
        }
    }
}

/// The distinct workspace ids among the saved clients, in ascending order:
/// the order in which workspaces are visited, whatever the input order.
#[verifier::loop_isolation(false)]
pub fn sorted_workspace_ids(clients: &Vec<HyprClient>) -> (ids: Vec<i32>)
    ensures
        forall|a: int, b: int| 0 <= a < b < ids@.len() ==> ids@[a] < ids@[b],
        forall|x: i32|
            ids@.contains(x) <==> (exists|j: int|
                0 <= j < clients@.len() && #[trigger] clients@[j].workspace.id == x),
{
    let mut ids: Vec<i32> = Vec::new();
    let mut j: usize = 0;
    while j < clients.len()
        invariant
            j <= clients@.len(),
            forall|a: int, b: int| 0 <= a < b < ids@.len() ==> ids@[a] < ids@[b],
            forall|x: i32|
                ids@.contains(x) <==> (exists|jj: int|
                    0 <= jj < j as int && #[trigger] clients@[jj].workspace.id == x),
        decreases clients@.len() - j,
    {
        insert_unique_sorted(&mut ids, clients[j].workspace.id);
        j += 1;
    }
    ids
}

/// A saved window that takes part in the tiling layout of `workspace_id`:
/// neither floating nor pinned.
pub open spec fn spec_is_tiled_of(c: HyprClient, workspace_id: i32) -> bool {
    c.workspace.id == workspace_id && !c.floating && !c.pinned
}

/// A saved window of `workspace_id` restored by direct placement: floating
/// or pinned.
pub open spec fn spec_is_floating_of(c: HyprClient, workspace_id: i32) -> bool {
    c.workspace.id == workspace_id && (c.floating || c.pinned)
}

/// Splits the saved windows of one workspace into tiled versus
/// floating-or-pinned, as positions into `clients`, each list in saved
/// order.
#[verifier::loop_isolation(false)]
pub fn partition_workspace_clients(clients: &Vec<HyprClient>, workspace_id: i32) -> (r: (
    Vec<usize>,
    Vec<usize>,
))
    ensures
        forall|k: int| 0 <= k < r.0@.len() ==> (r.0@[k] as int) < clients@.len(),
        forall|a: int, b: int| 0 <= a < b < r.0@.len() ==> r.0@[a] < r.0@[b],
        forall|k: int|
            0 <= k < r.0@.len() ==> spec_is_tiled_of(clients@[r.0@[k] as int], workspace_id),
        forall|j: int|
            0 <= j < clients@.len() && spec_is_tiled_of(#[trigger] clients@[j], workspace_id)
                ==> r.0@.contains(j as usize),
        forall|k: int| 0 <= k < r.1@.len() ==> (r.1@[k] as int) < clients@.len(),
        forall|a: int, b: int| 0 <= a < b < r.1@.len() ==> r.1@[a] < r.1@[b],
        forall|k: int|
            0 <= k < r.1@.len() ==> spec_is_floating_of(clients@[r.1@[k] as int], workspace_id),
        forall|j: int|
            0 <= j < clients@.len() && spec_is_floating_of(#[trigger] clients@[j], workspace_id)
                ==> r.1@.contains(j as usize),
{
    let mut tiled: Vec<usize> = Vec::new();
    let mut floating_or_pinned: Vec<usize> = Vec::new();
    let mut j: usize = 0;
    while j < clients.len()
        invariant
            j <= clients@.len(),
            forall|k: int| 0 <= k < tiled@.len() ==> (tiled@[k] as int) < j as int,
            forall|a: int, b: int| 0 <= a < b < tiled@.len() ==> tiled@[a] < tiled@[b],
            forall|k: int|
                0 <= k < tiled@.len() ==> spec_is_tiled_of(
                    clients@[tiled@[k] as int],
                    workspace_id,
                ),
            forall|jj: int|
                0 <= jj < j as int && spec_is_tiled_of(#[trigger] clients@[jj], workspace_id)
                    ==> tiled@.contains(jj as usize),
            forall|k: int|
                0 <= k < floating_or_pinned@.len() ==> (floating_or_pinned@[k] as int) < j as int,
            forall|a: int, b: int|
                0 <= a < b < floating_or_pinned@.len() ==> floating_or_pinned@[a]
                    < floating_or_pinned@[b],
            forall|k: int|
                0 <= k < floating_or_pinned@.len() ==> spec_is_floating_of(
                    clients@[floating_or_pinned@[k] as int],
                    workspace_id,
                ),
            forall|jj: int|
                0 <= jj < j as int && spec_is_floating_of(#[trigger] clients@[jj], workspace_id)
                    ==> floating_or_pinned@.contains(jj as usize),
        decreases clients@.len() - j,
    {
        let ghost tiled_pre = tiled@;
        let ghost floating_pre = floating_or_pinned@;
        let c = &clients[j];
        if c.workspace.id == workspace_id {
            if c.pinned || c.floating {
                floating_or_pinned.push(j);
            } else {
                tiled.push(j);
            }
        }
        j += 1;
        proof {
            assert forall|jj: int|
                0 <= jj < j as int && spec_is_tiled_of(
                    #[trigger] clients@[jj],
                    workspace_id,
                ) implies tiled@.contains(jj as usize) by {
                if jj == j as int - 1 {
                    assert(tiled@[tiled@.len() - 1] == jj as usize);
                } else {
                    assert(tiled_pre.contains(jj as usize));
                    let idx = choose|idx: int|
                        0 <= idx < tiled_pre.len() && tiled_pre[idx] == jj as usize;
                    assert(tiled@[idx] == jj as usize);
                }
            }
            assert forall|jj: int|
                0 <= jj < j as int && spec_is_floating_of(
                    #[trigger] clients@[jj],
                    workspace_id,
                ) implies floating_or_pinned@.contains(jj as usize) by {
                if jj == j as int - 1 {
                    assert(floating_or_pinned@[floating_or_pinned@.len() - 1] == jj as usize);
                } else {
                    assert(floating_pre.contains(jj as usize));
                    let idx = choose|idx: int|
                        0 <= idx < floating_pre.len() && floating_pre[idx] == jj as usize;
                    assert(floating_or_pinned@[idx] == jj as usize);
                }
            }
        }
    }
    (tiled, floating_or_pinned)
}

/// Clones the clients at the given positions, in order.
#[verifier::loop_isolation(false)]
fn gather_clients(clients: &Vec<HyprClient>, positions: &Vec<usize>) -> (r: Vec<HyprClient>)
    requires
        forall|k: int| 0 <= k < positions@.len() ==> (positions@[k] as int) < clients@.len(),
    ensures
        r@.len() == positions@.len(),
        forall|k: int| 0 <= k < r@.len() ==> r@[k] == clients@[positions@[k] as int],
{
    let mut r: Vec<HyprClient> = Vec::new();
    let mut k: usize = 0;
    while k < positions.len()
        invariant
            k <= positions@.len(),
            r@.len() == k as int,
            forall|i: int| 0 <= i < r@.len() ==> r@[i] == clients@[positions@[i] as int],
        decreases positions@.len() - k,
    {
        r.push(clients[positions[k]].clone());
        k += 1;
    }
    r
}

/// Whether a failure for the saved window at position `j` is recorded.
pub open spec fn spec_failure_recorded(failures: Seq<(usize, RestoreError)>, j: int) -> bool {
    exists|k: int| 0 <= k < failures.len() && (#[trigger] failures[k]).0 as int == j
}

/// The saved window at position `j` of `clients` is accounted for: a window
/// matching it has its address in `claimed`, or a failure for it is
/// recorded.
pub open spec fn spec_window_done(
    clients: Seq<HyprClient>,
    j: int,
    claimed: Set<Seq<char>>,
    failures: Seq<(usize, RestoreError)>,
) -> bool {
    spec_restored_in(clients[j], claimed) || spec_failure_recorded(failures, j)
}

/// Accounting survives growth of the claimed set and extension of the
/// failure list.
pub proof fn lemma_window_done_monotone(
    clients: Seq<HyprClient>,
    j: int,
    s1: Set<Seq<char>>,
    s2: Set<Seq<char>>,
    f1: Seq<(usize, RestoreError)>,
    f2: Seq<(usize, RestoreError)>,
)
    requires
        spec_window_done(clients, j, s1, f1),
        s1.subset_of(s2),
        f1.len() <= f2.len(),
        forall|k: int| 0 <= k < f1.len() ==> f2[k] == f1[k],
    ensures
        spec_window_done(clients, j, s2, f2),
{
    if spec_restored_in(clients[j], s1) {
        lemma_restored_in_monotone(clients[j], s1, s2);
    } else {
        let k = choose|k: int| 0 <= k < f1.len() && (#[trigger] f1[k]).0 as int == j;
        assert((f2[k]).0 as int == j);
    }
}

/// Restores one workspace's saved windows: a single tiled window directly, a
/// larger tiled group via split-tree replay (with the unordered per-window
/// fallback when the replay fails), and every floating or pinned window by
/// direct placement. Afterwards each of the workspace's saved windows is
/// accounted for: a window matching it was claimed, or its failure is
/// recorded.
#[verifier::loop_isolation(false)]
fn restore_workspace<A: CompositorAdapter>(
    adapter: &mut A,
    clients: &Vec<HyprClient>,
    workspace_id: i32,
    available_clients: &mut Vec<HyprClient>,
    baseline_addresses: &AddressSet,
    restored_addresses: &mut AddressSet,
    window_failures: &mut Vec<(usize, RestoreError)>,
    replay_failures: &mut Vec<(i32, RestoreError)>,
)
    ensures
        old(restored_addresses)@.subset_of(final(restored_addresses)@),
        final(window_failures)@.len() >= old(window_failures)@.len(),
        forall|k: int|
            0 <= k < old(window_failures)@.len() ==> final(window_failures)@[k] == old(
                window_failures,
            )@[k],
        forall|j: int|
            0 <= j < clients@.len() && (#[trigger] clients@[j]).workspace.id == workspace_id
                ==> spec_window_done(
                clients@,
                j,
                final(restored_addresses)@,
                final(window_failures)@,
            ),
{
    let client_count = clients.len();
    proof {
        assert(clients@.len() == client_count);
    }
    let (tiled, floating_or_pinned) = partition_workspace_clients(clients, workspace_id);
    let tiled_clients = gather_clients(clients, &tiled);
    if tiled.len() == 1 {
        let saved = &clients[tiled[0]];
        match ensure_restored(
            adapter,
            saved,
            available_clients,
            baseline_addresses,
            restored_addresses,
            DEFAULT_LAUNCH_TIMEOUT_MS,
        ) {
            Result::Ok(current_client) => {
                proof {
                    assert(spec_matches(current_client, clients@[tiled@[0] as int])
                        && restored_addresses@.contains(current_client.address@));
                }
            },
            Result::Err(e) => {
                window_failures.push((tiled[0], e));
                proof {
                    assert((window_failures@[window_failures@.len() - 1]).0 == tiled@[0]);
                }
            },
        }
    } else if tiled.len() > 1 {
        let mut rects: Vec<Rect> = Vec::new();
        let mut k: usize = 0;
        while k < tiled_clients.len()
            invariant
                k <= tiled_clients@.len(),
                rects@.len() == k as int,
            decreases tiled_clients@.len() - k,
        {
            rects.push(Rect::from_client(&tiled_clients[k]));
            k += 1;
        }
        let mut local_indices: Vec<usize> = Vec::new();
        let mut k2: usize = 0;
        while k2 < tiled_clients.len()
            invariant
                k2 <= tiled_clients@.len(),
                local_indices@.len() == k2 as int,
                forall|i: int| 0 <= i < local_indices@.len() ==> (local_indices@[i] as int) == i,
            decreases tiled_clients@.len() - k2,
        {
            local_indices.push(k2);
            k2 += 1;
        }
        let tree = build_split_tree(&rects, &local_indices);
        proof {
            broadcast use group_to_multiset_ensures;

            lemma_split_tree_leaves(rects@, local_indices@);
            let leaves = spec_leaves(spec_build_split_tree(rects@, local_indices@));
            assert forall|i: int| 0 <= i < leaves.len() implies (leaves[i] as int)
                < tiled_clients@.len() by {
                assert(leaves.contains(leaves[i]));
                assert(leaves.to_multiset().count(leaves[i]) > 0);
                assert(local_indices@.to_multiset().count(leaves[i]) > 0);
                assert(local_indices@.contains(leaves[i]));
            }
            lemma_leaves_in_bounds(tree, tiled_clients@.len() as int);
        }
        match restore_split_tree(
            adapter,
            &tree,
            &tiled_clients,
            available_clients,
            baseline_addresses,
            restored_addresses,
            DEFAULT_LAUNCH_TIMEOUT_MS,
        ) {
            Result::Ok(_) => {
                proof {
                    broadcast use group_to_multiset_ensures;

                    let leaves = spec_leaves(tree);
                    assert forall|i: int| 0 <= i < tiled@.len() implies spec_restored_in(
                        clients@[(#[trigger] tiled@[i]) as int],
                        restored_addresses@,
                    ) by {
                        assert(local_indices@[i] == i as usize);
                        assert(local_indices@.contains(i as usize));
                        assert(local_indices@.to_multiset().count(i as usize) > 0);
                        assert(leaves.to_multiset().count(i as usize) > 0);
                        assert(leaves.contains(i as usize));
                        let k3 = choose|k3: int| 0 <= k3 < leaves.len() && leaves[k3] == i as usize;
                        assert(spec_restored_in(
                            tiled_clients@[leaves[k3] as int],
                            restored_addresses@,
                        ));
                        assert(tiled_clients@[i] == clients@[tiled@[i] as int]);
                    }
                }
            },
            Result::Err(e) => {
                replay_failures.push((workspace_id, e));
                let mut f: usize = 0;
                while f < tiled.len()
                    invariant
                        f <= tiled@.len(),
                        old(restored_addresses)@.subset_of(restored_addresses@),
                        window_failures@.len() >= old(window_failures)@.len(),
                        forall|k4: int|
                            0 <= k4 < old(window_failures)@.len() ==> window_failures@[k4] == old(
                                window_failures,
                            )@[k4],
                        forall|i: int|
                            0 <= i < f as int ==> spec_window_done(
                                clients@,
                                (#[trigger] tiled@[i]) as int,
                                restored_addresses@,
                                window_failures@,
                            ),
                    decreases tiled@.len() - f,
                {
                    let ghost set_pre = restored_addresses@;
                    let ghost fail_pre = window_failures@;
                    match ensure_restored(
                        adapter,
                        &tiled_clients[f],
                        available_clients,
                        baseline_addresses,
                        restored_addresses,
                        DEFAULT_LAUNCH_TIMEOUT_MS,
                    ) {
                        Result::Ok(current_client) => {
                            proof {
                                assert(spec_matches(current_client, tiled_clients@[f as int])
                                    && restored_addresses@.contains(current_client.address@));
                                assert(tiled_clients@[f as int] == clients@[tiled@[f as int] as int]);
                            }
                        },
                        Result::Err(e2) => {
                            window_failures.push((tiled[f], e2));
                            proof {
                                assert((window_failures@[window_failures@.len() - 1]).0
                                    == tiled@[f as int]);
                            }
                        },
                    }
                    proof {
                        assert forall|i: int| 0 <= i < f as int implies spec_window_done(
                            clients@,
                            (#[trigger] tiled@[i]) as int,
                            restored_addresses@,
                            window_failures@,
                        ) by {
                            lemma_window_done_monotone(
                                clients@,
                                tiled@[i] as int,
                                set_pre,
                                restored_addresses@,
                                fail_pre,
                                window_failures@,
                            );
                        }
                    }
                    f += 1;
                }
            },
        }
    }
    let mut g: usize = 0;
    while g < floating_or_pinned.len()
        invariant
            g <= floating_or_pinned@.len(),
            old(restored_addresses)@.subset_of(restored_addresses@),
            window_failures@.len() >= old(window_failures)@.len(),
            forall|k5: int|
                0 <= k5 < old(window_failures)@.len() ==> window_failures@[k5] == old(
                    window_failures,
                )@[k5],
            forall|i: int|
                0 <= i < tiled@.len() ==> spec_window_done(
                    clients@,
                    (#[trigger] tiled@[i]) as int,
                    restored_addresses@,
                    window_failures@,
                ),
            forall|i: int|
                0 <= i < g as int ==> spec_window_done(
                    clients@,
                    (#[trigger] floating_or_pinned@[i]) as int,
                    restored_addresses@,
                    window_failures@,
                ),
        decreases floating_or_pinned@.len() - g,
    {
        let ghost set_pre = restored_addresses@;
        let ghost fail_pre = window_failures@;
        let saved = &clients[floating_or_pinned[g]];
        match ensure_restored(
            adapter,
            saved,
            available_clients,
            baseline_addresses,
            restored_addresses,
            DEFAULT_LAUNCH_TIMEOUT_MS,
        ) {
            Result::Ok(current_client) => {
                proof {
                    assert(spec_matches(
                        current_client,
                        clients@[floating_or_pinned@[g as int] as int],
                    ) && restored_addresses@.contains(current_client.address@));
                }
            },
            Result::Err(e) => {
                window_failures.push((floating_or_pinned[g], e));
                proof {
                    assert((window_failures@[window_failures@.len() - 1]).0
                        == floating_or_pinned@[g as int]);
                }
            },
        }
        proof {
            assert forall|i: int| 0 <= i < tiled@.len() implies spec_window_done(
                clients@,
                (#[trigger] tiled@[i]) as int,
                restored_addresses@,
                window_failures@,
            ) by {
                lemma_window_done_monotone(
                    clients@,
                    tiled@[i] as int,
                    set_pre,
                    restored_addresses@,
                    fail_pre,
                    window_failures@,
                );
            }
            assert forall|i: int| 0 <= i < g as int implies spec_window_done(
                clients@,
                (#[trigger] floating_or_pinned@[i]) as int,
                restored_addresses@,
                window_failures@,
            ) by {
                lemma_window_done_monotone(
                    clients@,
                    floating_or_pinned@[i] as int,
                    set_pre,
                    restored_addresses@,
                    fail_pre,
                    window_failures@,
                );
            }
        }
        g += 1;
    }
    proof {
        assert forall|j: int|
            0 <= j < clients@.len() && (#[trigger] clients@[j]).workspace.id
                == workspace_id implies spec_window_done(
            clients@,
            j,
            restored_addresses@,
            window_failures@,
        ) by {
            if !clients@[j].floating && !clients@[j].pinned {
                assert(spec_is_tiled_of(clients@[j], workspace_id));
                assert(tiled@.contains(j as usize));
                let i = choose|i: int| 0 <= i < tiled@.len() && tiled@[i] == j as usize;
                assert(spec_window_done(
                    clients@,
                    tiled@[i] as int,
                    restored_addresses@,
                    window_failures@,
                ));
            } else {
                assert(spec_is_floating_of(clients@[j], workspace_id));
                assert(floating_or_pinned@.contains(j as usize));
                let i = choose|i: int|
                    0 <= i < floating_or_pinned@.len() && floating_or_pinned@[i] == j as usize;
                assert(spec_window_done(
                    clients@,
                    floating_or_pinned@[i] as int,
                    restored_addresses@,
                    window_failures@,
                ));
            }
        }
    }
}

/// The outcome of a restore run: what was visited and claimed, and which
/// windows failed. Per-window failures do not abort the remainder of the
/// session.
pub struct RestoreReport {
    /// The workspace ids visited, in ascending order.
    pub workspaces_processed: Vec<i32>,
    /// Split-replay failures, one per workspace whose ordered replay was
    /// abandoned for the unordered fallback.
    pub replay_failures: Vec<(i32, RestoreError)>,
    /// Per-window failures: the position of the saved window in the
    /// snapshot's client list, with the error; restoration proceeded past
    /// each.
    pub window_failures: Vec<(usize, RestoreError)>,
    /// The addresses claimed by this restore run.
    pub restored_addresses: AddressSet,
}

/// Restore orchestrator: captures the live state and the baseline of live
/// addresses, groups the saved windows by workspace, visits the workspaces
/// in ascending id order, replays the split tree of each workspace's tiled
/// group (falling back to unordered restoration when the replay fails),
/// restores floating and pinned windows by direct placement, and refocuses
/// the originally active workspace at the end.
///
/// Only a failure to capture the live state at all aborts the restore. On
/// success every saved window is accounted for: the report holds either a
/// claimed address of a window matching it, or its recorded failure.
#[verifier::loop_isolation(false)]
pub fn restore_session<A: CompositorAdapter>(adapter: &mut A, snapshot: &SessionSnapshot) -> (r:
    Result<RestoreReport, RestoreError>)
    ensures
        (r matches Result::Err(e) ==> e matches RestoreError::Adapter { .. }),
        (r matches Result::Ok(report) ==> (forall|a: int, b: int|
            0 <= a < b < report.workspaces_processed@.len()
                ==> report.workspaces_processed@[a] < report.workspaces_processed@[b])),
        (r matches Result::Ok(report) ==> (forall|x: i32|
            report.workspaces_processed@.contains(x) <==> (exists|j: int|
                0 <= j < snapshot.clients@.len() && #[trigger] snapshot.clients@[j].workspace.id
                    == x))),
        (r matches Result::Ok(report) ==> (forall|j: int|
            0 <= j < snapshot.clients@.len() ==> spec_restored_in(
                #[trigger] snapshot.clients@[j],
                report.restored_addresses@,
            ) || spec_failure_recorded(report.window_failures@, j))),
{
    let mut available_clients = match adapter.query_clients() {
        Result::Ok(v) => v,
        Result::Err(e) => {
            return Result::Err(RestoreError::Adapter { error: e });
        },
    };
    let mut baseline_addresses = AddressSet::new();
    let mut b: usize = 0;
    while b < available_clients.len()
        invariant
            b <= available_clients@.len(),
        decreases available_clients@.len() - b,
    {
        baseline_addresses.insert(available_clients[b].address.clone());
        b += 1;
    }
    let original_workspace_id = match adapter.query_active_workspace_id() {
        Result::Ok(id) => id,
        Result::Err(_) => DEFAULT_WORKSPACE_ID,
    };
    let mut restored_addresses = AddressSet::new();
    let mut window_failures: Vec<(usize, RestoreError)> = Vec::new();
    let mut replay_failures: Vec<(i32, RestoreError)> = Vec::new();
    let workspace_ids = sorted_workspace_ids(&snapshot.clients);
    let mut w: usize = 0;
    while w < workspace_ids.len()
        invariant
            w <= workspace_ids@.len(),
            forall|j: int|
                0 <= j < snapshot.clients@.len() && workspace_ids@.subrange(0, w as int).contains(
                    (#[trigger] snapshot.clients@[j]).workspace.id,
                ) ==> spec_window_done(
                    snapshot.clients@,
                    j,
                    restored_addresses@,
                    window_failures@,
                ),
        decreases workspace_ids@.len() - w,
    {
        let workspace_id = workspace_ids[w];
        let _ = dispatch_best_effort(adapter, &Command::SwitchWorkspace { workspace_id });
        let ghost set_pre = restored_addresses@;
        let ghost fail_pre = window_failures@;
        restore_workspace(
            adapter,
            &snapshot.clients,
            workspace_id,
            &mut available_clients,
            &baseline_addresses,
            &mut restored_addresses,
            &mut window_failures,
            &mut replay_failures,
        );
        w += 1;
        proof {
            assert forall|j: int|
                0 <= j < snapshot.clients@.len() && workspace_ids@.subrange(0, w as int).contains(
                    (#[trigger] snapshot.clients@[j]).workspace.id,
                ) implies spec_window_done(
                snapshot.clients@,
                j,
                restored_addresses@,
                window_failures@,
            ) by {
                let id = snapshot.clients@[j].workspace.id;
                let sub = workspace_ids@.subrange(0, w as int);
                let idx = choose|idx: int| 0 <= idx < sub.len() && sub[idx] == id;
                if idx == w as int - 1 {
                    assert(id == workspace_id);
                } else {
                    assert(workspace_ids@.subrange(0, w as int - 1)[idx] == id);
                    assert(workspace_ids@.subrange(0, w as int - 1).contains(id));
                    lemma_window_done_monotone(
                        snapshot.clients@,
                        j,
                        set_pre,
                        restored_addresses@,
                        fail_pre,
                        window_failures@,
                    );
                }
            }
        }
    }
    proof {
        assert forall|j: int| 0 <= j < snapshot.clients@.len() implies spec_restored_in(
            #[trigger] snapshot.clients@[j],
            restored_addresses@,
        ) || spec_failure_recorded(window_failures@, j) by {
            let id = snapshot.clients@[j].workspace.id;
            assert(exists|jj: int|
                0 <= jj < snapshot.clients@.len() && #[trigger] snapshot.clients@[jj].workspace.id
                    == id);
            assert(workspace_ids@.contains(id));
            assert(workspace_ids@.subrange(0, w as int) =~= workspace_ids@);
            assert(spec_window_done(snapshot.clients@, j, restored_addresses@, window_failures@));
        }
    }
    let _ = dispatch_best_effort(
        adapter,
        &Command::SwitchWorkspace { workspace_id: original_workspace_id },
    );
    Result::Ok(
        RestoreReport {
            workspaces_processed: workspace_ids,
            replay_failures,
            window_failures,
            restored_addresses,
        },
    )
}

} // verus!
