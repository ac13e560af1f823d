//! The data captured of a desktop, and the engines that capture and restore it.
use vstd::prelude::*;

pub mod dummy;
pub mod launchers;
pub mod macos;
pub mod windows;

verus! {

/// The geometry and state of one top-level application window.
#[derive(Clone, Debug)]
pub struct WindowState {
    /// The row id under which the window is stored, once it has been saved.
    pub id: Option<i32>,
    pub app_name: String,
    pub process_id: u32,
    pub window_title: String,
    pub x: i32,
    pub y: i32,
    pub width: i32,
    pub height: i32,
    pub is_minimized: bool,
    pub is_maximized: bool,
}

/// A named, saved layout of windows.
#[derive(Clone, Debug)]
pub struct Workspace {
    /// A UUID v4.
    pub id: String,
    pub name: String,
    pub created_at: i64,
    pub is_favorite: bool,
    pub windows: Vec<WindowState>,
}

/// A platform engine that reads the windows of the desktop and arranges them.
pub trait WindowSpyEngine: Send + Sync {
    /// Whether `r` is an answer this engine gives to a capture.
    spec fn capture_answer(&self, r: Result<Vec<WindowState>, String>) -> bool;

    /// Whether `r` is an answer this engine gives to a restore of
    /// `workspace` with `close_others`.
    spec fn restore_answer(&self, workspace: Workspace, close_others: bool, r: Result<(), String>) -> bool;

    /// Captures the state of all active, visible user application windows.
    fn capture_windows(&self) -> (r: Result<Vec<WindowState>, String>)
        ensures
            self.capture_answer(r),
    ;

    /// Restores coordinates and layout of the saved workspace windows.
    fn restore_workspace(&self, workspace: &Workspace, close_others: bool) -> (r: Result<(), String>)
        ensures
            self.restore_answer(*workspace, close_others, r),
    ;
}

/// The engine the library provides: always the dummy engine, which sees no
/// windows and restores nothing. The native engines of Windows and macOS
/// call the operating system and are chosen by the program around the
/// library.
pub fn create_engine() -> Box<dyn WindowSpyEngine> {
    Box::new(dummy::DummyWindowSpy::new())
}

} // verus!
