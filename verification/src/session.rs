//! Configuration and session manager: which window classes a snapshot
//! keeps. Reading and writing snapshot files is the surrounding program's
//! business; the manager owns the filtering rule applied at capture time.

use vstd::prelude::*;
use crate::records::HyprClient;

verus! {

/// Tool configuration: where snapshot files are stored, and which window
/// classes (background and overlay helpers) are never captured.
pub struct Config {
    pub session_dir: String,
    pub ignored_classes: Vec<String>,
}

/// Whether `class` is one of the configured ignored classes.
pub open spec fn spec_is_ignored(config: Config, class: Seq<char>) -> bool {
    exists|i: int|
        0 <= i < config.ignored_classes@.len() && config.ignored_classes@[i]@ == class
}

/// The windows kept in a snapshot: those whose class is not ignored.
pub open spec fn spec_kept_pred(config: Config) -> spec_fn(HyprClient) -> bool {
    |c: HyprClient| !spec_is_ignored(config, c.class@)
}

impl Config {
    /// A configuration rooted at `session_dir`, with the default list of
    /// ignored helper classes.
    pub fn new(session_dir: String) -> (c: Config)
        ensures
            c.session_dir == session_dir,
            c.ignored_classes@.len() == 5,
            c.ignored_classes@[0]@ == "rofi"@,
            c.ignored_classes@[1]@ == "waybar"@,
            c.ignored_classes@[2]@ == "dunst"@,
            c.ignored_classes@[3]@ == "hyprland-share-picker"@,
            c.ignored_classes@[4]@ == "polkit-gnome-authentication-agent-1"@,
    {
        let mut ignored_classes: Vec<String> = Vec::new();
        ignored_classes.push(String::from_str("rofi"));
        ignored_classes.push(String::from_str("waybar"));
        ignored_classes.push(String::from_str("dunst"));
        ignored_classes.push(String::from_str("hyprland-share-picker"));
        ignored_classes.push(String::from_str("polkit-gnome-authentication-agent-1"));
        Config { session_dir, ignored_classes }
    }
}

/// Captures session snapshots according to a configuration.
pub struct SessionManager {
    config: Config,
}

impl SessionManager {
    /// The configuration the manager was created with.
    pub closed spec fn spec_config(&self) -> Config {
        self.config
    }

    /// A manager for the given configuration.
    pub fn new(config: Config) -> (m: SessionManager)
        ensures
            m.spec_config() == config,
    {
        SessionManager { config }
    }

    /// Whether a window class is ignored by this manager's configuration.
    fn class_is_ignored(&self, class: &String) -> (r: bool)
        ensures
            r == spec_is_ignored(self.spec_config(), class@),
    {
        let mut i: usize = 0;
        while i < self.config.ignored_classes.len()
            invariant
                i <= self.config.ignored_classes@.len(),
                forall|k: int|
                    0 <= k < i as int ==> self.config.ignored_classes@[k]@ != class@,
            decreases self.config.ignored_classes@.len() - i,
        {
            if self.config.ignored_classes[i] == *class {
                return true;
            }
            i += 1;
        }
        false
    }

    /// The clients kept when capturing a snapshot: those whose class is not
    /// ignored, in their original order.
    #[verifier::loop_isolation(false)]
    pub fn filter_ignored_clients(&self, clients: &Vec<HyprClient>) -> (kept: Vec<HyprClient>)
        ensures
            kept@ == clients@.filter(spec_kept_pred(self.spec_config())),
    {
        let mut kept: Vec<HyprClient> = Vec::new();
        let mut j: usize = 0;
        while j < clients.len()
            invariant
                j <= clients@.len(),
                kept@ == clients@.subrange(0, j as int).filter(
                    spec_kept_pred(self.spec_config()),
                ),
            decreases clients@.len() - j,
        {
            let c = &clients[j];
            if !self.class_is_ignored(&c.class) {
                kept.push(c.clone());
            }
            j += 1;
            proof {
                reveal(Seq::filter);
                let pred = spec_kept_pred(self.spec_config());
                let cur = clients@.subrange(0, j as int);
                assert(cur.drop_last() =~= clients@.subrange(0, j as int - 1));
                assert(cur.last() == clients@[j as int - 1]);
                assert(cur.filter(pred) == if pred(cur.last()) {
                    cur.drop_last().filter(pred).push(cur.last())
                } else {
                    cur.drop_last().filter(pred)
                });
            }
        }
        proof {
            assert(clients@.subrange(0, clients@.len() as int) =~= clients@);
        }
        kept
    }
}

} // verus!
