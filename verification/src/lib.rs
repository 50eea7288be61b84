//! Workspace, split-layout and daemon-state logic of the Termy terminal workspace manager.

pub mod daemon;
pub mod daemon_invariant;
pub mod daemon_laws;
pub mod file_url;
pub mod git;
pub mod hub;
pub mod ids;
pub mod keys;
pub mod layout;
pub mod layout_laws;
pub mod osc;
pub mod protocol;
pub mod pty;
pub mod seq_facts;
pub mod terminal_output;
pub mod text;
pub mod ui;
pub mod usage;
pub mod workspace;

pub use ids::{PaneId, WorkspaceId};
pub use layout::{
    LayoutError, LayoutNode, MAX_TERMINALS_PER_WORKSPACE, SplitAxis, SplitDirection, SplitRatio,
    managed_terminal_layout,
};
pub use workspace::{SessionStatus, Workspace};
