//! The engine of platforms without native window control.
use vstd::prelude::*;

use super::{WindowSpyEngine, WindowState, Workspace};

verus! {

/// The engine of a platform without native window control: it sees no
/// windows and restores nothing.
pub struct DummyWindowSpy;

impl DummyWindowSpy {
    pub fn new() -> (r: Self) {
        DummyWindowSpy
    }
}

impl WindowSpyEngine for DummyWindowSpy {
    /// It sees no windows.
    open spec fn capture_answer(&self, r: Result<Vec<WindowState>, String>) -> bool {
        r matches Ok(v) && v@.len() == 0
    }

    /// It restores nothing, and succeeds.
    open spec fn restore_answer(&self, workspace: Workspace, close_others: bool, r: Result<(), String>) -> bool {
        r is Ok
    }

    fn capture_windows(&self) -> (r: Result<Vec<WindowState>, String>)
        ensures
            r matches Ok(v) && v@.len() == 0,
    {
        Ok(Vec::new())
    }

    fn restore_workspace(&self, _workspace: &Workspace, _close_others: bool) -> (r: Result<(), String>)
        ensures
            r is Ok,
    {
        Ok(())
    }
}

} // verus!
