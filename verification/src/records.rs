//! Data model for the window records queried from the compositor and stored
//! in snapshots: windows (clients), workspaces and monitors.

use vstd::prelude::*;

verus! {

/// A workspace as referenced from a client or monitor record.
#[derive(Debug)]
pub struct HyprWorkspaceRef {
    pub id: i32,
    pub name: String,
}

/// One window record. A saved instance is immutable snapshot data; a live
/// instance is fetched fresh from the compositor.
#[derive(Debug)]
pub struct HyprClient {
    /// Unique live identifier of the window.
    pub address: String,
    /// Top-left corner of the window, in pixels.
    pub at_x: i32,
    pub at_y: i32,
    /// Width and height of the window, in pixels.
    pub size_w: i32,
    pub size_h: i32,
    pub workspace: HyprWorkspaceRef,
    pub class: String,
    pub title: String,
    pub initial_class: String,
    pub initial_title: String,
    pub floating: bool,
    pub pinned: bool,
    pub monitor: i64,
    /// 0: none, 1: maximized, 2: fullscreen.
    pub fullscreen: i32,
    pub xwayland: bool,
    pub pid: i32,
    /// Best-effort resolved executable path of the window's process.
    pub exec_path: Option<String>,
}

/// A workspace record at capture time.
#[derive(Debug)]
pub struct HyprWorkspace {
    pub id: i32,
    pub name: String,
    pub monitor: String,
    pub windows: i32,
    pub hasfullscreen: bool,
    pub lastwindow: String,
    pub lastwindowtitle: String,
}

/// A monitor record at capture time.
#[derive(Debug)]
pub struct HyprMonitor {
    pub id: i64,
    pub name: String,
    pub width: i32,
    pub height: i32,
    /// Refresh rate in millihertz, so that 60 Hz is stored as 60_000.
    pub refresh_rate_mhz: i32,
    pub x: i32,
    pub y: i32,
    pub active_workspace: HyprWorkspaceRef,
}

/// The saved set of records captured from the compositor in one pass;
/// read-only during a restore.
pub struct SessionSnapshot {
    pub clients: Vec<HyprClient>,
    pub workspaces: Vec<HyprWorkspace>,
    pub monitors: Vec<HyprMonitor>,
}

impl Clone for HyprWorkspaceRef {
    fn clone(&self) -> (r: Self)
        ensures
            r == *self,
    {
        HyprWorkspaceRef { id: self.id, name: self.name.clone() }
    }
}

impl Clone for HyprClient {
    fn clone(&self) -> (r: Self)
        ensures
            r == *self,
    {
        HyprClient {
            address: self.address.clone(),
            at_x: self.at_x,
            at_y: self.at_y,
            size_w: self.size_w,
            size_h: self.size_h,
            workspace: self.workspace.clone(),
            class: self.class.clone(),
            title: self.title.clone(),
            initial_class: self.initial_class.clone(),
            initial_title: self.initial_title.clone(),
            floating: self.floating,
            pinned: self.pinned,
            monitor: self.monitor,
            fullscreen: self.fullscreen,
            xwayland: self.xwayland,
            pid: self.pid,
            exec_path: match &self.exec_path {
                Option::Some(p) => Option::Some(p.clone()),
                Option::None => Option::None,
            },
        }
    }
}

impl Clone for HyprWorkspace {
    fn clone(&self) -> (r: Self)
        ensures
            r == *self,
    {
        HyprWorkspace {
            id: self.id,
            name: self.name.clone(),
            monitor: self.monitor.clone(),
            windows: self.windows,
            hasfullscreen: self.hasfullscreen,
            lastwindow: self.lastwindow.clone(),
            lastwindowtitle: self.lastwindowtitle.clone(),
        }
    }
}

impl Clone for HyprMonitor {
    fn clone(&self) -> (r: Self)
        ensures
            r == *self,
    {
        HyprMonitor {
            id: self.id,
            name: self.name.clone(),
            width: self.width,
            height: self.height,
            refresh_rate_mhz: self.refresh_rate_mhz,
            x: self.x,
            y: self.y,
            active_workspace: self.active_workspace.clone(),
        }
    }
}

/// Clones a list of window records, element for element.
#[verifier::loop_isolation(false)]
pub fn clone_clients(v: &Vec<HyprClient>) -> (r: Vec<HyprClient>)
    ensures
        r@ == v@,
{
    let mut r: Vec<HyprClient> = Vec::new();
    let mut i: usize = 0;
    while i < v.len()
        invariant
            i <= v@.len(),
            r@ == v@.subrange(0, i as int),
        decreases v@.len() - i,
    {
        r.push(v[i].clone());
        i += 1;
        proof {
            assert(v@.subrange(0, i as int) =~= v@.subrange(0, i as int - 1).push(
                v@[i as int - 1],
            ));
        }
    }
    proof {
        assert(v@.subrange(0, v@.len() as int) =~= v@);
    }
    r
}

} // verus!
