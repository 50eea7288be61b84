use vstd::prelude::*;

use crate::ids::{PaneId, WorkspaceId, is_random_uuid};
use crate::layout::LayoutNode;

verus! {

/// What became of a pane's root process.
#[derive(Clone, Debug, PartialEq, Eq)]
pub enum SessionStatus {
    Starting,
    Running,
    Exited { exit_code: u32 },
    FailedToStart { message: String },
}

/// A session status with its message taken as a character sequence.
#[verifier::ext_equal]
pub enum StatusView {
    Starting,
    Running,
    Exited { exit_code: u32 },
    FailedToStart { message: Seq<char> },
}

impl View for SessionStatus {
    type V = StatusView;

    open spec fn view(&self) -> StatusView {
        match self {
            SessionStatus::Starting => StatusView::Starting,
            SessionStatus::Running => StatusView::Running,
            SessionStatus::Exited { exit_code } => StatusView::Exited { exit_code: *exit_code },
            SessionStatus::FailedToStart { message } => StatusView::FailedToStart {
                message: message@,
            },
        }
    }
}

/// A named folder with its split layout and focused pane.
pub struct Workspace {
    pub id: WorkspaceId,
    pub name: String,
    pub root_directory: String,
    pub layout: LayoutNode,
    pub active_pane_id: Option<PaneId>,
}

impl Workspace {
    /// A fresh workspace holding one fresh pane, which is also the focused pane.
    pub fn new(name: String, root_directory: String) -> (workspace: Self)
        ensures
            is_random_uuid(workspace.id.value),
            workspace.name@ == name@,
            workspace.root_directory@ == root_directory@,
            workspace.active_pane_id matches Some(pane_id) && workspace.layout == (LayoutNode::Pane {
                pane_id,
            }) && is_random_uuid(pane_id.value),
    {
        let active_pane_id = PaneId::new();
        Workspace {
            id: WorkspaceId::new(),
            name,
            root_directory,
            layout: LayoutNode::pane(active_pane_id),
            active_pane_id: Some(active_pane_id),
        }
    }
}

} // verus!
