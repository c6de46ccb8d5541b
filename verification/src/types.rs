//! Plain event payload types consumed by the launcher's command layer.
//!
//! These carry progress and status information out of the vault's host
//! application; they hold only plain values.
use vstd::prelude::*;

verus! {

/// Phase of a download or installation.
#[derive(Clone, Copy, Debug, PartialEq, Eq, Structural)]
pub enum DownloadPhase {
    Idle,
    Java,
    Loader,
    Game,
    Assets,
    Libraries,
    Extracting,
}

/// Progress event for a download.
#[derive(Clone, Debug)]
pub struct DownloadProgressPayload {
    pub phase: DownloadPhase,
    pub current_bytes: u64,
    pub total_bytes: u64,
    pub percentage: u8,
    pub message: String,
    pub instance_name: String,
}

/// Launch status of a game instance.
#[derive(Clone, Copy, Debug, PartialEq, Eq, Structural)]
pub enum LaunchStatus {
    Initializing,
    Downloading,
    Installing,
    Installed,
    Running,
    Launched,
    Exited,
    Failed,
}

/// Status-change event.
#[derive(Clone, Debug)]
pub struct LaunchStatusPayload {
    pub status: LaunchStatus,
    pub phase: String,
    pub instance_name: String,
    pub pid: Option<u32>,
}

/// One line of console output from a running instance.
#[derive(Clone, Debug)]
pub struct ConsoleLinePayload {
    pub instance_name: String,
    pub pid: u32,
    pub stream: String,
    pub line: String,
    pub timestamp: u64,
}

/// An error event.
#[derive(Clone, Debug)]
pub struct ErrorPayload {
    pub category: String,
    pub message: String,
    pub details: Option<String>,
    pub timestamp: u64,
}

} // verus!
