pub mod daemon;
pub mod database;
pub mod engine;
pub mod preview;
pub mod text;
pub mod user_path;

pub use daemon::{AppState, DaemonStats};
