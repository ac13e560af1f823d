//! The macOS engine, as built on other platforms: it refuses to run.
use vstd::prelude::*;

use super::{WindowSpyEngine, WindowState, Workspace};
use crate::text::owned;

verus! {

/// The macOS window engine.
pub struct MacosWindowSpy;

impl MacosWindowSpy {
    pub fn new() -> (r: Self) {
        MacosWindowSpy
    }
}

impl WindowSpyEngine for MacosWindowSpy {
    /// It refuses to run.
    open spec fn capture_answer(&self, r: Result<Vec<WindowState>, String>) -> bool {
        r matches Err(e) && e@ == "macOS Window Spy Engine is only executable on macOS."@
    }

    /// It refuses to run.
    open spec fn restore_answer(&self, workspace: Workspace, close_others: bool, r: Result<(), String>) -> bool {
        r matches Err(e) && e@ == "macOS Window Spy Engine is only executable on macOS."@
    }

    fn capture_windows(&self) -> (r: Result<Vec<WindowState>, String>)
        ensures
            r matches Err(e) && e@ == "macOS Window Spy Engine is only executable on macOS."@,
    {
        Err(owned("macOS Window Spy Engine is only executable on macOS."))
    }

    fn restore_workspace(&self, _workspace: &Workspace, _close_others: bool) -> (r: Result<(), String>)
        ensures
            r matches Err(e) && e@ == "macOS Window Spy Engine is only executable on macOS."@,
    {
        Err(owned("macOS Window Spy Engine is only executable on macOS."))
    }
}

} // verus!
