use vstd::prelude::*;

use crate::daemon::{
    ActionView, DaemonError, close_workspace_step, has_pane, is_live, outside_workspace,
    pane_index, step, workspace_without_pane,
};
use crate::ids::{PaneId, WorkspaceId};
use crate::layout::{LayoutNode, MAX_TERMINALS_PER_WORKSPACE};
use crate::layout_laws::managed_layout_keeps_panes;
use crate::protocol::{AppView, ClientRequest, PaneView};
use crate::workspace::StatusView;
use crate::layout::SplitDirection;
use crate::daemon::{DEFAULT_COLUMNS, DEFAULT_ROWS, has_workspace, workspace_index};

verus! {

/// Every workspace holds at most six terminals.
pub open spec fn within_terminal_cap(state: AppView) -> bool {
    forall|i: int|
        0 <= i < state.workspaces.len() ==> (#[trigger] state.workspaces[i]).layout.panes().len()
            <= MAX_TERMINALS_PER_WORKSPACE
}

proof fn lemma_shrunk_within_cap(state: AppView, pane_id: PaneId, index: int)
    requires
        0 <= index < state.workspaces.len(),
        state.workspaces[index].layout.panes().len() <= MAX_TERMINALS_PER_WORKSPACE,
    ensures
        workspace_without_pane(state.workspaces[index], pane_id).layout.panes().len()
            <= MAX_TERMINALS_PER_WORKSPACE,
{
    let workspace = state.workspaces[index];
    let current = workspace.layout.panes();
    if current.len() != 1 {
        let remaining = current.filter(crate::daemon::other_than(pane_id));
        current.lemma_filter_len(crate::daemon::other_than(pane_id));
        managed_layout_keeps_panes(remaining);
    } else {
        assert(LayoutNode::Empty.panes().len() == 0);
    }
}

/// No request takes a workspace past six terminals: the cap is kept by every transition.
pub proof fn terminal_cap_is_kept(
    state: AppView,
    request: ClientRequest,
    label: Seq<char>,
    new_workspace: WorkspaceId,
    new_pane: PaneId,
)
    requires
        within_terminal_cap(state),
    ensures
        within_terminal_cap(step(state, request, label, new_workspace, new_pane).state),
{
    broadcast use vstd::seq_lib::group_to_multiset_ensures;

    let after = step(state, request, label, new_workspace, new_pane).state;
    assert forall|i: int| 0 <= i < after.workspaces.len() implies (#[trigger] after.workspaces[
        i
    ]).layout.panes().len() <= MAX_TERMINALS_PER_WORKSPACE by {
        match request {
            ClientRequest::CreateWorkspace { name, root } => {
                if i == state.workspaces.len() {
                    assert((LayoutNode::Pane { pane_id: new_pane }).panes().len() == 1);
                }
            },
            ClientRequest::CloseWorkspace { workspace_id } => {
                if crate::daemon::has_workspace(state, workspace_id) {
                    let index = crate::daemon::workspace_index(state, workspace_id);
                    if i >= index {
                        assert(after.workspaces[i] == state.workspaces[i + 1]);
                    }
                }
            },
            ClientRequest::CreatePane { workspace_id } => {
                assert((LayoutNode::Pane { pane_id: new_pane }).panes().len() == 1);
            },
            ClientRequest::SplitPane { workspace_id, target, .. } => {
                if crate::daemon::has_workspace(state, workspace_id) {
                    let index = crate::daemon::workspace_index(state, workspace_id);
                    let current = state.workspaces[index].layout.panes();
                    managed_layout_keeps_panes(current.push(new_pane));
                }
            },
            ClientRequest::ClosePane { pane_id } => {
                if has_pane(state, pane_id) {
                    let id = state.panes[pane_index(state, pane_id)].workspace_id;
                    if crate::daemon::has_workspace(state, id) {
                        let index = crate::daemon::workspace_index(state, id);
                        lemma_shrunk_within_cap(state, pane_id, index);
                    }
                }
            },
            ClientRequest::UpdateLayout { workspace_id, layout } => {
                if crate::daemon::has_workspace(state, workspace_id) {
                    let index = crate::daemon::workspace_index(state, workspace_id);
                    let current = state.workspaces[index].layout.panes();
                    assert(current.len() == current.to_multiset().len());
                    assert(layout.panes().len() == layout.panes().to_multiset().len());
                }
            },
            _ => {},
        }
    }
}

/// A refused request changes nothing.
pub proof fn refused_request_changes_nothing(
    state: AppView,
    request: ClientRequest,
    label: Seq<char>,
    new_workspace: WorkspaceId,
    new_pane: PaneId,
)
    ensures
        step(state, request, label, new_workspace, new_pane).outcome is Err ==> step(
            state,
            request,
            label,
            new_workspace,
            new_pane,
        ).state == state,
{
}

/// The pane that an outcome forwards input or a resize to, if any.
pub open spec fn forwarded_pane(outcome: Result<crate::daemon::ChangeView, DaemonError>) -> Option<PaneId> {
    match outcome {
        Ok(change) => match change.action {
            ActionView::Input { pane_id, .. } => Some(pane_id),
            ActionView::Resize { pane_id, .. } => Some(pane_id),
            _ => None,
        },
        Err(_) => None,
    }
}

/// Input and resizes are only ever forwarded to a known pane whose process is live.
pub proof fn only_live_panes_receive_input(
    state: AppView,
    request: ClientRequest,
    label: Seq<char>,
    new_workspace: WorkspaceId,
    new_pane: PaneId,
)
    ensures
        forwarded_pane(step(state, request, label, new_workspace, new_pane).outcome) matches Some(
            pane_id,
        ) ==> has_pane(state, pane_id) && is_live(state.panes[pane_index(state, pane_id)].status),
{
    match request {
        ClientRequest::Input { pane_id, data } => {},
        ClientRequest::Resize { pane_id, cols, rows } => {},
        _ => {},
    }
}

/// Closing a workspace drops every pane recorded in it.
pub proof fn closing_workspace_drops_its_panes(state: AppView, id: WorkspaceId)
    ensures
        close_workspace_step(state, id).outcome is Ok ==> forall|i: int|
            0 <= i < close_workspace_step(state, id).state.panes.len() ==> (
            #[trigger] close_workspace_step(state, id).state.panes[i]).workspace_id != id,
{
    let panes = close_workspace_step(state, id).state.panes;
    if close_workspace_step(state, id).outcome is Ok {
        assert forall|i: int| 0 <= i < panes.len() implies (#[trigger] panes[i]).workspace_id != id by {
            state.panes.lemma_filter_pred(outside_workspace(id), i);
        }
    }
}

/// Every accepted request either changes only the runtime (nothing persisted or published) or
/// is a mutation (persisted and published); the two flags always agree.
pub proof fn persist_and_publish_agree(
    state: AppView,
    request: ClientRequest,
    label: Seq<char>,
    new_workspace: WorkspaceId,
    new_pane: PaneId,
)
    ensures
        step(state, request, label, new_workspace, new_pane).outcome matches Ok(change)
            ==> change.persist == change.publish_snapshot,
{
}

/// Closing a pane moves no workspace's focus unless the closed pane had it: every workspace
/// focused on another pane keeps that focus, except a workspace whose layout holds a single pane,
/// which is emptied when that pane is the one closed.
pub proof fn closing_a_pane_keeps_other_focus(
    state: AppView,
    pane_id: PaneId,
    label: Seq<char>,
    new_workspace: WorkspaceId,
    new_pane: PaneId,
)
    ensures
        ({
            let after = step(state, ClientRequest::ClosePane { pane_id }, label, new_workspace, new_pane).state;
            &&& after.workspaces.len() == state.workspaces.len()
            &&& forall|i: int|
                0 <= i < state.workspaces.len() && state.workspaces[i].active_pane_id != Some(pane_id)
                    && state.workspaces[i].layout.panes().len() != 1 ==> (
                #[trigger] after.workspaces[i]).active_pane_id == state.workspaces[i].active_pane_id
        }),
{
}

/// An accepted `FocusPane` focuses the workspace that records the pane, and makes the pane that
/// workspace's focused pane; the request is accepted exactly when the pane and its workspace
/// exist.
pub proof fn focusing_a_pane_focuses_its_workspace(
    state: AppView,
    pane_id: PaneId,
    label: Seq<char>,
    new_workspace: WorkspaceId,
    new_pane: PaneId,
)
    ensures
        ({
            let t = step(state, ClientRequest::FocusPane { pane_id }, label, new_workspace, new_pane);
            let id = state.panes[pane_index(state, pane_id)].workspace_id;
            &&& t.outcome is Ok <==> has_pane(state, pane_id) && crate::daemon::has_workspace(state, id)
            &&& t.outcome is Ok ==> {
                &&& t.state.active_workspace_id == Some(id)
                &&& t.state.workspaces.len() == state.workspaces.len()
                &&& t.state.panes == state.panes
                &&& forall|i: int|
                    0 <= i < state.workspaces.len() ==> (#[trigger] t.state.workspaces[i]).id
                        == state.workspaces[i].id && t.state.workspaces[i].layout
                        == state.workspaces[i].layout && (t.state.workspaces[i].active_pane_id
                        == if i == crate::daemon::workspace_index(state, id) {
                        Some(pane_id)
                    } else {
                        state.workspaces[i].active_pane_id
                    })
                &&& state.workspaces[crate::daemon::workspace_index(state, id)].id == id
            }
        }),
{
    let id = state.panes[pane_index(state, pane_id)].workspace_id;
    crate::seq_facts::lemma_first_index_bounds(
        crate::daemon::workspace_ids_of(state.workspaces),
        id,
    );
}

/// Closing the focused pane of a workspace that keeps other panes focuses the first pane of its
/// rearranged layout.
pub proof fn closing_the_focused_pane_focuses_the_first_left(
    state: AppView,
    pane_id: PaneId,
    label: Seq<char>,
    new_workspace: WorkspaceId,
    new_pane: PaneId,
)
    ensures
        ({
            let t = step(state, ClientRequest::ClosePane { pane_id }, label, new_workspace, new_pane);
            let index = workspace_index(state, state.panes[pane_index(state, pane_id)].workspace_id);
            t.outcome is Ok && has_pane(state, pane_id) && state.workspaces[index].active_pane_id == Some(
                pane_id,
            ) && t.state.workspaces[index].layout.panes().len() > 0 ==> t.state.workspaces[index].active_pane_id
                == Some(t.state.workspaces[index].layout.panes()[0])
        }),
{
    let t = step(state, ClientRequest::ClosePane { pane_id }, label, new_workspace, new_pane);
    if t.outcome is Ok && has_pane(state, pane_id) {
        let index = workspace_index(state, state.panes[pane_index(state, pane_id)].workspace_id);
        let current = state.workspaces[index].layout.panes();
        if current.len() != 1 {
            managed_layout_keeps_panes(current.filter(crate::daemon::other_than(pane_id)));
        }
    }
}

/// An accepted split puts the new pane after the workspace's existing panes, focuses it, and
/// records it, starting, in the split pane's directory and size; a split is accepted exactly
/// when the target pane exists in the named workspace and that workspace holds fewer than six
/// terminals.
pub proof fn splitting_adds_the_new_pane_last(
    state: AppView,
    id: WorkspaceId,
    target: PaneId,
    direction: SplitDirection,
    label: Seq<char>,
    new_workspace: WorkspaceId,
    new_pane: PaneId,
)
    ensures
        ({
            let t = step(
                state,
                ClientRequest::SplitPane { workspace_id: id, target, direction },
                label,
                new_workspace,
                new_pane,
            );
            let index = workspace_index(state, id);
            let source = state.panes[pane_index(state, target)];
            &&& t.outcome is Ok <==> has_pane(state, target) && source.workspace_id == id
                && has_workspace(state, id) && state.workspaces[index].layout.panes().len()
                < MAX_TERMINALS_PER_WORKSPACE
            &&& t.outcome is Ok ==> {
                &&& t.state.workspaces[index].layout.panes() == state.workspaces[index].layout.panes().push(
                    new_pane,
                )
                &&& t.state.workspaces[index].active_pane_id == Some(new_pane)
                &&& t.state.workspaces[index].id == state.workspaces[index].id
                &&& t.state.active_workspace_id == state.active_workspace_id
                &&& t.state.panes == state.panes.push(
                    PaneView {
                        id: new_pane,
                        workspace_id: id,
                        status: StatusView::Starting,
                        cwd: source.cwd,
                        process_label: label,
                        cols: source.cols,
                        rows: source.rows,
                    },
                )
            }
        }),
{
    let index = workspace_index(state, id);
    managed_layout_keeps_panes(state.workspaces[index].layout.panes().push(new_pane));
}

/// An accepted new workspace comes last, is focused, and holds one starting pane at the
/// default size in its root directory, which is also that workspace's focused pane; a blank
/// name is refused.
pub proof fn creating_a_workspace_focuses_it(
    state: AppView,
    name: String,
    root: String,
    label: Seq<char>,
    new_workspace: WorkspaceId,
    new_pane: PaneId,
)
    ensures
        ({
            let t = step(state, ClientRequest::CreateWorkspace { name, root }, label, new_workspace, new_pane);
            &&& t.outcome is Ok <==> !crate::text::is_blank(name@)
            &&& t.outcome is Ok ==> {
                &&& t.state.active_workspace_id == Some(new_workspace)
                &&& t.state.workspaces.len() == state.workspaces.len() + 1
                &&& t.state.workspaces.last().id == new_workspace
                &&& t.state.workspaces.last().layout.panes() == seq![new_pane]
                &&& t.state.workspaces.last().active_pane_id == Some(new_pane)
                &&& t.state.panes == state.panes.push(
                    PaneView {
                        id: new_pane,
                        workspace_id: new_workspace,
                        status: StatusView::Starting,
                        cwd: root@,
                        process_label: label,
                        cols: DEFAULT_COLUMNS,
                        rows: DEFAULT_ROWS,
                    },
                )
            }
        }),
{
    assert((LayoutNode::Pane { pane_id: new_pane }).panes() =~= seq![new_pane]);
}

/// Closing the focused workspace focuses the workspace that came after it, else the one before
/// it, else none; closing another workspace leaves the focus alone.
pub proof fn closing_the_focused_workspace_moves_focus_to_a_neighbour(state: AppView, id: WorkspaceId)
    ensures
        ({
            let t = close_workspace_step(state, id);
            let index = workspace_index(state, id);
            &&& t.outcome is Ok <==> has_workspace(state, id)
            &&& t.outcome is Ok && state.active_workspace_id == Some(id) ==> t.state.active_workspace_id == if index
                + 1 < state.workspaces.len() {
                Some(state.workspaces[index + 1].id)
            } else if index >= 1 {
                Some(state.workspaces[index - 1].id)
            } else {
                None
            }
            &&& t.outcome is Ok && state.active_workspace_id != Some(id) ==> t.state.active_workspace_id
                == state.active_workspace_id
        }),
{
}

} // verus!
