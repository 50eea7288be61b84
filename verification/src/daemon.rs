use vstd::prelude::*;

use crate::ids::{PaneId, WorkspaceId, is_random_uuid};
use crate::layout::{
    vec_contains,
    LayoutError, LayoutNode, MAX_TERMINALS_PER_WORKSPACE, managed_layout, managed_layout_fits,
    managed_terminal_layout,
};
use crate::pty::SpawnCommand;
use crate::text::{
    blank, chars_of, is_blank, lowercase_ascii, paths_equal, same_path, string_from_chars, text_equals,
    to_ascii_lowercase,
};
use crate::layout_laws::validate_accepts_exactly;
use crate::protocol::{
    AppSnapshot, AppView, ClientRequest, PROTOCOL_VERSION, PaneSnapshot, PaneView, WorkspaceSnapshot, WorkspaceView,
    pane_views, workspace_views,
};
use crate::seq_facts::{first_index, lemma_first_index_bounds, lemma_same_multiset};
use crate::workspace::{SessionStatus, StatusView, Workspace};

verus! {

/// Columns of a freshly created terminal.
pub const DEFAULT_COLUMNS: u16 = 80;

/// Rows of a freshly created terminal.
pub const DEFAULT_ROWS: u16 = 24;

/// Why the daemon refused a request or could not run.
#[derive(Clone, Copy, Debug, PartialEq, Eq, Structural)]
pub enum DaemonError {
    WorkspaceNotFound(WorkspaceId),
    WorkspaceHasNoActivePane(WorkspaceId),
    TerminalLimitReached { workspace_id: WorkspaceId, limit: usize },
    PaneNotFound(PaneId),
    Layout(LayoutError),
    EmptyWorkspaceName,
    InvalidTerminalSize,
    ProtocolVersion { received: u32, expected: u32 },
    UnsupportedPlatform,
    AlreadyRunning,
}

/// The runtime side effect a request asks of the daemon's terminal sessions.
#[derive(Clone, Debug, PartialEq, Eq)]
pub enum StateAction {
    NoAction,
    SpawnPane(PaneId),
    ClosePane(PaneId),
    ClosePanes(Vec<PaneId>),
    Input { pane_id: PaneId, data: Vec<u8> },
    Resize { pane_id: PaneId, cols: u16, rows: u16 },
    Shutdown,
}

/// A runtime side effect with its byte and pane lists taken as sequences.
#[verifier::ext_equal]
pub enum ActionView {
    NoAction,
    SpawnPane(PaneId),
    ClosePane(PaneId),
    ClosePanes(Seq<PaneId>),
    Input { pane_id: PaneId, data: Seq<u8> },
    Resize { pane_id: PaneId, cols: u16, rows: u16 },
    Shutdown,
}

impl View for StateAction {
    type V = ActionView;

    open spec fn view(&self) -> ActionView {
        match self {
            StateAction::NoAction => ActionView::NoAction,
            StateAction::SpawnPane(pane_id) => ActionView::SpawnPane(*pane_id),
            StateAction::ClosePane(pane_id) => ActionView::ClosePane(*pane_id),
            StateAction::ClosePanes(panes) => ActionView::ClosePanes(panes@),
            StateAction::Input { pane_id, data } => ActionView::Input { pane_id: *pane_id, data: data@ },
            StateAction::Resize { pane_id, cols, rows } => ActionView::Resize {
                pane_id: *pane_id,
                cols: *cols,
                rows: *rows,
            },
            StateAction::Shutdown => ActionView::Shutdown,
        }
    }
}

/// What applying a request changed: its side effect, and whether the state must be persisted
/// and published to the client.
#[derive(Clone, Debug, PartialEq, Eq)]
pub struct StateChange {
    pub action: StateAction,
    pub persist: bool,
    pub publish_snapshot: bool,
}

/// A state change with its action as a view.
#[verifier::ext_equal]
pub struct ChangeView {
    pub action: ActionView,
    pub persist: bool,
    pub publish_snapshot: bool,
}

impl View for StateChange {
    type V = ChangeView;

    open spec fn view(&self) -> ChangeView {
        ChangeView {
            action: self.action@,
            persist: self.persist,
            publish_snapshot: self.publish_snapshot,
        }
    }
}

/// A change that touches only the runtime: nothing to persist or publish.
pub open spec fn runtime_change(action: ActionView) -> ChangeView {
    ChangeView { action, persist: false, publish_snapshot: false }
}

/// A change of the authoritative state: persisted and published.
pub open spec fn mutation_change(action: ActionView) -> ChangeView {
    ChangeView { action, persist: true, publish_snapshot: true }
}

/// The outcome of a request as views.
pub open spec fn outcome_view(outcome: Result<StateChange, DaemonError>) -> Result<
    ChangeView,
    DaemonError,
> {
    match outcome {
        Ok(change) => Ok(change@),
        Err(error) => Err(error),
    }
}

impl StateChange {
    fn runtime(action: StateAction) -> (change: Self)
        ensures
            change@ == runtime_change(action@),
    {
        StateChange { action, persist: false, publish_snapshot: false }
    }

    fn mutation(action: StateAction) -> (change: Self)
        ensures
            change@ == mutation_change(action@),
    {
        StateChange { action, persist: true, publish_snapshot: true }
    }
}

/// The identifiers of the panes, in order.
pub open spec fn pane_ids_of(panes: Seq<PaneView>) -> Seq<PaneId> {
    panes.map_values(|pane: PaneView| pane.id)
}

/// The identifiers of the workspaces, in order.
pub open spec fn workspace_ids_of(workspaces: Seq<WorkspaceView>) -> Seq<WorkspaceId> {
    workspaces.map_values(|workspace: WorkspaceView| workspace.id)
}

/// Index of the first pane with identifier `id`; the number of panes when there is none.
pub open spec fn pane_index(state: AppView, id: PaneId) -> int {
    first_index(pane_ids_of(state.panes), id) as int
}

/// Index of the first workspace with identifier `id`; the number of workspaces when there is none.
pub open spec fn workspace_index(state: AppView, id: WorkspaceId) -> int {
    first_index(workspace_ids_of(state.workspaces), id) as int
}

/// Whether a pane with identifier `id` exists.
pub open spec fn has_pane(state: AppView, id: PaneId) -> bool {
    pane_index(state, id) < state.panes.len()
}

/// Whether a workspace with identifier `id` exists.
pub open spec fn has_workspace(state: AppView, id: WorkspaceId) -> bool {
    workspace_index(state, id) < state.workspaces.len()
}

/// A pane's root process is live while it is starting or running.
pub open spec fn is_live(status: StatusView) -> bool {
    status is Starting || status is Running
}

/// Keeps the panes recorded outside workspace `id`.
pub open spec fn outside_workspace(id: WorkspaceId) -> spec_fn(PaneView) -> bool {
    |pane: PaneView| pane.workspace_id != id
}

/// Keeps the pane records of every pane but `pane_id`.
pub open spec fn other_pane(pane_id: PaneId) -> spec_fn(PaneView) -> bool {
    |pane: PaneView| pane.id != pane_id
}

/// Keeps every identifier but `pane_id`.
pub open spec fn other_than(pane_id: PaneId) -> spec_fn(PaneId) -> bool {
    |candidate: PaneId| candidate != pane_id
}

/// Keeps the identifiers that `others` lacks.
pub open spec fn not_in(others: Seq<PaneId>) -> spec_fn(PaneId) -> bool {
    |pane: PaneId| !others.contains(pane)
}

/// The state after a request, and the request's outcome.
#[verifier::ext_equal]
pub struct Transition {
    pub state: AppView,
    pub outcome: Result<ChangeView, DaemonError>,
}

/// A request that leaves the state as it was.
pub open spec fn stay(state: AppView, outcome: Result<ChangeView, DaemonError>) -> Transition {
    Transition { state, outcome }
}

/// A fresh pane record: starting, in `workspace_id`, with the given directory, label and size.
pub open spec fn fresh_pane(
    id: PaneId,
    workspace_id: WorkspaceId,
    cwd: Seq<char>,
    process_label: Seq<char>,
    cols: u16,
    rows: u16,
) -> PaneView {
    PaneView { id, workspace_id, status: StatusView::Starting, cwd, process_label, cols, rows }
}

/// The state with the workspace at `index` replaced.
pub open spec fn with_workspace(state: AppView, index: int, workspace: WorkspaceView) -> AppView {
    AppView { workspaces: state.workspaces.update(index, workspace), ..state }
}

/// The state with the pane at `index` replaced.
pub open spec fn with_pane(state: AppView, index: int, pane: PaneView) -> AppView {
    AppView { panes: state.panes.update(index, pane), ..state }
}

/// `CreateWorkspace`: a non-blank name gives a new workspace, focused, holding one starting pane
/// in the root directory at the default size.
pub open spec fn create_workspace_step(
    state: AppView,
    name: Seq<char>,
    root: Seq<char>,
    label: Seq<char>,
    new_workspace: WorkspaceId,
    new_pane: PaneId,
) -> Transition {
    if is_blank(name) {
        stay(state, Err(DaemonError::EmptyWorkspaceName))
    } else {
        Transition {
            state: AppView {
                active_workspace_id: Some(new_workspace),
                workspaces: state.workspaces.push(
                    WorkspaceView {
                        id: new_workspace,
                        name,
                        root,
                        layout: LayoutNode::Pane { pane_id: new_pane },
                        active_pane_id: Some(new_pane),
                    },
                ),
                panes: state.panes.push(
                    fresh_pane(new_pane, new_workspace, root, label, DEFAULT_COLUMNS, DEFAULT_ROWS),
                ),
            },
            outcome: Ok(mutation_change(ActionView::SpawnPane(new_pane))),
        }
    }
}

/// `RenameWorkspace`: a non-blank name replaces the first matching workspace's name.
pub open spec fn rename_workspace_step(state: AppView, id: WorkspaceId, name: Seq<char>) -> Transition {
    if is_blank(name) {
        stay(state, Err(DaemonError::EmptyWorkspaceName))
    } else if !has_workspace(state, id) {
        stay(state, Err(DaemonError::WorkspaceNotFound(id)))
    } else {
        let index = workspace_index(state, id);
        Transition {
            state: with_workspace(state, index, WorkspaceView { name, ..state.workspaces[index] }),
            outcome: Ok(mutation_change(ActionView::NoAction)),
        }
    }
}

/// `CloseWorkspace`: removes the workspace and every pane recorded in it; when it was focused,
/// focus moves to the workspace now at its position, or the last one, or none.
pub open spec fn close_workspace_step(state: AppView, id: WorkspaceId) -> Transition {
    if !has_workspace(state, id) {
        stay(state, Err(DaemonError::WorkspaceNotFound(id)))
    } else {
        let index = workspace_index(state, id);
        let closed = state.workspaces[index];
        let remaining = state.workspaces.remove(index);
        Transition {
            state: AppView {
                active_workspace_id: if state.active_workspace_id == Some(id) {
                    if remaining.len() == 0 {
                        None
                    } else if index < remaining.len() {
                        Some(remaining[index].id)
                    } else {
                        Some(remaining[remaining.len() - 1].id)
                    }
                } else {
                    state.active_workspace_id
                },
                workspaces: remaining,
                panes: state.panes.filter(outside_workspace(id)),
            },
            outcome: Ok(mutation_change(ActionView::ClosePanes(closed.layout.panes()))),
        }
    }
}

/// `CreatePane`: a workspace without a focused pane gets a single fresh pane in its root
/// directory; a workspace that has one is left alone.
pub open spec fn create_pane_step(
    state: AppView,
    id: WorkspaceId,
    label: Seq<char>,
    new_pane: PaneId,
) -> Transition {
    if !has_workspace(state, id) {
        stay(state, Err(DaemonError::WorkspaceNotFound(id)))
    } else {
        let index = workspace_index(state, id);
        let workspace = state.workspaces[index];
        if workspace.active_pane_id is Some {
            stay(state, Ok(runtime_change(ActionView::NoAction)))
        } else {
            Transition {
                state: AppView {
                    workspaces: state.workspaces.update(
                        index,
                        WorkspaceView {
                            layout: LayoutNode::Pane { pane_id: new_pane },
                            active_pane_id: Some(new_pane),
                            ..workspace
                        },
                    ),
                    panes: state.panes.push(
                        fresh_pane(
                            new_pane,
                            id,
                            workspace.root,
                            label,
                            DEFAULT_COLUMNS,
                            DEFAULT_ROWS,
                        ),
                    ),
                    ..state
                },
                outcome: Ok(mutation_change(ActionView::SpawnPane(new_pane))),
            }
        }
    }
}

/// `SplitPane`: the target pane must exist in the named workspace, which must hold fewer than
/// six terminals; the new pane joins the managed grid last, takes focus, and inherits the
/// target's directory and size.
pub open spec fn split_pane_step(
    state: AppView,
    id: WorkspaceId,
    target: PaneId,
    label: Seq<char>,
    new_pane: PaneId,
) -> Transition {
    if !has_pane(state, target) {
        stay(state, Err(DaemonError::PaneNotFound(target)))
    } else if state.panes[pane_index(state, target)].workspace_id != id {
        stay(state, Err(DaemonError::PaneNotFound(target)))
    } else if !has_workspace(state, id) {
        stay(state, Err(DaemonError::WorkspaceNotFound(id)))
    } else {
        let source = state.panes[pane_index(state, target)];
        let index = workspace_index(state, id);
        let workspace = state.workspaces[index];
        let current = workspace.layout.panes();
        if current.len() >= MAX_TERMINALS_PER_WORKSPACE {
            stay(
                state,
                Err(
                    DaemonError::TerminalLimitReached {
                        workspace_id: id,
                        limit: MAX_TERMINALS_PER_WORKSPACE,
                    },
                ),
            )
        } else {
            Transition {
                state: AppView {
                    workspaces: state.workspaces.update(
                        index,
                        WorkspaceView {
                            layout: managed_layout(current.push(new_pane)),
                            active_pane_id: Some(new_pane),
                            ..workspace
                        },
                    ),
                    panes: state.panes.push(
                        fresh_pane(new_pane, id, source.cwd, label, source.cols, source.rows),
                    ),
                    ..state
                },
                outcome: Ok(mutation_change(ActionView::SpawnPane(new_pane))),
            }
        }
    }
}

/// The workspace after closing `pane_id` in it: a layout of one pane becomes empty with no focus;
/// otherwise the other panes are rearranged in the managed grid, and focus moves to the first
/// remaining pane if the closed one had it.
pub open spec fn workspace_without_pane(workspace: WorkspaceView, pane_id: PaneId) -> WorkspaceView {
    let current = workspace.layout.panes();
    if current.len() == 1 {
        WorkspaceView { layout: LayoutNode::Empty, active_pane_id: None, ..workspace }
    } else {
        let remaining = current.filter(other_than(pane_id));
        WorkspaceView {
            layout: managed_layout(remaining),
            active_pane_id: if workspace.active_pane_id == Some(pane_id) {
                if remaining.len() == 0 {
                    None
                } else {
                    Some(remaining[0])
                }
            } else {
                workspace.active_pane_id
            },
            ..workspace
        }
    }
}

/// `ClosePane`: an unknown pane is ignored; otherwise its workspace loses it and every record of
/// the pane is dropped.
pub open spec fn close_pane_step(state: AppView, pane_id: PaneId) -> Transition {
    if !has_pane(state, pane_id) {
        stay(state, Ok(runtime_change(ActionView::NoAction)))
    } else {
        let id = state.panes[pane_index(state, pane_id)].workspace_id;
        if !has_workspace(state, id) {
            stay(state, Err(DaemonError::WorkspaceNotFound(id)))
        } else {
            let index = workspace_index(state, id);
            Transition {
                state: AppView {
                    workspaces: state.workspaces.update(
                        index,
                        workspace_without_pane(state.workspaces[index], pane_id),
                    ),
                    panes: state.panes.filter(other_pane(pane_id)),
                    ..state
                },
                outcome: Ok(mutation_change(ActionView::ClosePane(pane_id))),
            }
        }
    }
}

/// `FocusWorkspace`: an existing workspace becomes the focused one.
pub open spec fn focus_workspace_step(state: AppView, id: WorkspaceId) -> Transition {
    if !has_workspace(state, id) {
        stay(state, Err(DaemonError::WorkspaceNotFound(id)))
    } else {
        Transition {
            state: AppView { active_workspace_id: Some(id), ..state },
            outcome: Ok(mutation_change(ActionView::NoAction)),
        }
    }
}

/// `FocusPane`: an existing pane becomes its workspace's focused pane, and that workspace the
/// focused one.
pub open spec fn focus_pane_step(state: AppView, pane_id: PaneId) -> Transition {
    if !has_pane(state, pane_id) {
        stay(state, Err(DaemonError::PaneNotFound(pane_id)))
    } else {
        let id = state.panes[pane_index(state, pane_id)].workspace_id;
        if !has_workspace(state, id) {
            stay(state, Err(DaemonError::WorkspaceNotFound(id)))
        } else {
            let index = workspace_index(state, id);
            Transition {
                state: AppView {
                    active_workspace_id: Some(id),
                    workspaces: state.workspaces.update(
                        index,
                        WorkspaceView { active_pane_id: Some(pane_id), ..state.workspaces[index] },
                    ),
                    ..state
                },
                outcome: Ok(mutation_change(ActionView::NoAction)),
            }
        }
    }
}

/// The smallest identifier (by value) of a non-empty sequence.
pub open spec fn least_pane(panes: Seq<PaneId>) -> PaneId
    decreases panes.len(),
{
    if panes.len() <= 1 {
        panes[0]
    } else {
        let rest = least_pane(panes.drop_first());
        if panes[0].value <= rest.value {
            panes[0]
        } else {
            rest
        }
    }
}

/// The pane reported when a new layout's panes differ from the current ones: the smallest
/// current pane missing from the new layout, else the smallest pane of the new layout.
pub open spec fn mismatched_pane(current: Seq<PaneId>, received: Seq<PaneId>) -> PaneId {
    let missing = current.filter(not_in(received));
    if missing.len() > 0 {
        least_pane(missing)
    } else {
        least_pane(received)
    }
}

/// `UpdateLayout`: a valid layout holding the same panes (as a multiset) replaces the workspace's
/// layout.
pub open spec fn update_layout_step(state: AppView, id: WorkspaceId, layout: LayoutNode) -> Transition {
    if layout.validation() is Err {
        stay(state, Err(DaemonError::Layout(layout.validation()->Err_0)))
    } else if !has_workspace(state, id) {
        stay(state, Err(DaemonError::WorkspaceNotFound(id)))
    } else {
        let index = workspace_index(state, id);
        let workspace = state.workspaces[index];
        let current = workspace.layout.panes();
        let received = layout.panes();
        if !(current.to_multiset() =~= received.to_multiset()) {
            stay(
                state,
                Err(DaemonError::Layout(LayoutError::PaneNotFound(mismatched_pane(current, received)))),
            )
        } else {
            Transition {
                state: with_workspace(state, index, WorkspaceView { layout, ..workspace }),
                outcome: Ok(mutation_change(ActionView::NoAction)),
            }
        }
    }
}

/// `Input`: forwarded only to a known pane whose process is live; the state is unchanged.
pub open spec fn input_step(state: AppView, pane_id: PaneId, data: Seq<u8>) -> Transition {
    if has_pane(state, pane_id) && is_live(state.panes[pane_index(state, pane_id)].status) {
        stay(state, Ok(runtime_change(ActionView::Input { pane_id, data })))
    } else {
        stay(state, Ok(runtime_change(ActionView::NoAction)))
    }
}

/// `Resize`: a zero dimension is refused; a known pane records the size, and the resize is
/// forwarded only when its process is live.
pub open spec fn resize_step(state: AppView, pane_id: PaneId, cols: u16, rows: u16) -> Transition {
    if cols == 0 || rows == 0 {
        stay(state, Err(DaemonError::InvalidTerminalSize))
    } else if !has_pane(state, pane_id) {
        stay(state, Ok(runtime_change(ActionView::NoAction)))
    } else {
        let index = pane_index(state, pane_id);
        let pane = state.panes[index];
        Transition {
            state: with_pane(state, index, PaneView { cols, rows, ..pane }),
            outcome: Ok(
                mutation_change(
                    if is_live(pane.status) {
                        ActionView::Resize { pane_id, cols, rows }
                    } else {
                        ActionView::NoAction
                    },
                ),
            ),
        }
    }
}

/// `ReportCwd`: a known pane records the directory its terminal reported, unless it names the
/// same path as the one recorded (compared as paths, see `same_path`).
pub open spec fn report_cwd_step(state: AppView, pane_id: PaneId, cwd: Seq<char>) -> Transition {
    if !has_pane(state, pane_id) {
        stay(state, Err(DaemonError::PaneNotFound(pane_id)))
    } else {
        let index = pane_index(state, pane_id);
        Transition {
            state: if same_path(state.panes[index].cwd, cwd) {
                state
            } else {
                with_pane(state, index, PaneView { cwd, ..state.panes[index] })
            },
            outcome: Ok(mutation_change(ActionView::NoAction)),
        }
    }
}

/// The transition of the daemon state for one client request, given the label of the shell
/// process and the identifiers a new workspace and a new pane would take.
pub open spec fn step(
    state: AppView,
    request: ClientRequest,
    label: Seq<char>,
    new_workspace: WorkspaceId,
    new_pane: PaneId,
) -> Transition {
    match request {
        ClientRequest::Attach | ClientRequest::GetSnapshot => stay(
            state,
            Ok(runtime_change(ActionView::NoAction)),
        ),
        ClientRequest::CreateWorkspace { name, root } => create_workspace_step(
            state,
            name@,
            root@,
            label,
            new_workspace,
            new_pane,
        ),
        ClientRequest::RenameWorkspace { workspace_id, name } => rename_workspace_step(
            state,
            workspace_id,
            name@,
        ),
        ClientRequest::CloseWorkspace { workspace_id } => close_workspace_step(state, workspace_id),
        ClientRequest::CreatePane { workspace_id } => create_pane_step(
            state,
            workspace_id,
            label,
            new_pane,
        ),
        ClientRequest::SplitPane { workspace_id, target, .. } => split_pane_step(
            state,
            workspace_id,
            target,
            label,
            new_pane,
        ),
        ClientRequest::ClosePane { pane_id } => close_pane_step(state, pane_id),
        ClientRequest::FocusWorkspace { workspace_id } => focus_workspace_step(state, workspace_id),
        ClientRequest::FocusPane { pane_id } => focus_pane_step(state, pane_id),
        ClientRequest::UpdateLayout { workspace_id, layout } => update_layout_step(
            state,
            workspace_id,
            layout,
        ),
        ClientRequest::Input { pane_id, data } => input_step(state, pane_id, data@),
        ClientRequest::Resize { pane_id, cols, rows } => resize_step(state, pane_id, cols, rows),
        ClientRequest::ReportCwd { pane_id, cwd } => report_cwd_step(state, pane_id, cwd@),
        ClientRequest::Shutdown => stay(state, Ok(runtime_change(ActionView::Shutdown))),
    }
}

/// Closing `pane_id` rearranges the remaining panes of its workspace into the managed grid,
/// which is built only for rows of at most `u16::MAX` panes (see `managed_layout_fits`); a longer
/// row is too large to lay out. Every request fits a consistent state (see
/// `consistent_states_fit_every_request`).
pub open spec fn close_pane_fits(state: AppView, pane_id: PaneId) -> bool {
    has_pane(state, pane_id) && has_workspace(state, state.panes[pane_index(state, pane_id)].workspace_id)
        ==> {
        let workspace = state.workspaces[workspace_index(
            state,
            state.panes[pane_index(state, pane_id)].workspace_id,
        )];
        managed_layout_fits(
            workspace.layout.panes().filter(other_than(pane_id)).len(),
        )
    }
}

/// The inputs on which handling `request` runs to completion: all of them but closing a pane
/// whose workspace would be left with a row too large to lay out.
pub open spec fn request_fits(state: AppView, request: ClientRequest) -> bool {
    match request {
        ClientRequest::ClosePane { pane_id } => close_pane_fits(state, pane_id),
        _ => true,
    }
}

/// The authoritative, transport-independent daemon model.
pub struct DaemonState {
    snapshot: AppSnapshot,
}

impl View for DaemonState {
    type V = AppView;

    closed spec fn view(&self) -> AppView {
        self.snapshot@
    }
}

fn find_pane(panes: &Vec<PaneSnapshot>, id: PaneId) -> (index: Option<usize>)
    ensures
        ({
            let ids = pane_ids_of(pane_views(panes@));
            match index {
                Some(i) => i == first_index(ids, id) && i < panes@.len(),
                None => first_index(ids, id) == panes@.len(),
            }
        }),
{
    let ghost ids = pane_ids_of(pane_views(panes@));
    proof {
        lemma_first_index_bounds(ids, id);
    }
    let mut index: usize = 0;
    while index < panes.len()
        invariant
            index <= panes@.len(),
            ids == pane_ids_of(pane_views(panes@)),
            ids.len() == panes@.len(),
            forall|j: int| 0 <= j < index ==> ids[j] != id,
            first_index(ids, id) <= ids.len(),
            first_index(ids, id) < ids.len() ==> ids[first_index(ids, id) as int] == id,
            forall|j: int| 0 <= j < first_index(ids, id) ==> ids[j] != id,
        decreases panes@.len() - index,
    {
        assert(ids[index as int] == panes@[index as int].id);
        if panes[index].id == id {
            return Some(index);
        }
        index += 1;
    }
    None
}

fn find_workspace(workspaces: &Vec<WorkspaceSnapshot>, id: WorkspaceId) -> (index: Option<usize>)
    ensures
        ({
            let ids = workspace_ids_of(workspace_views(workspaces@));
            match index {
                Some(i) => i == first_index(ids, id) && i < workspaces@.len(),
                None => first_index(ids, id) == workspaces@.len(),
            }
        }),
{
    let ghost ids = workspace_ids_of(workspace_views(workspaces@));
    proof {
        lemma_first_index_bounds(ids, id);
    }
    let mut index: usize = 0;
    while index < workspaces.len()
        invariant
            index <= workspaces@.len(),
            ids == workspace_ids_of(workspace_views(workspaces@)),
            ids.len() == workspaces@.len(),
            forall|j: int| 0 <= j < index ==> ids[j] != id,
            first_index(ids, id) <= ids.len(),
            first_index(ids, id) < ids.len() ==> ids[first_index(ids, id) as int] == id,
            forall|j: int| 0 <= j < first_index(ids, id) ==> ids[j] != id,
        decreases workspaces@.len() - index,
    {
        assert(ids[index as int] == workspaces@[index as int].id);
        if workspaces[index].id == id {
            return Some(index);
        }
        index += 1;
    }
    None
}

/// Refuses a workspace name that is empty or only whitespace.
fn validate_name(name: &str) -> (valid: Result<(), DaemonError>)
    ensures
        is_blank(name@) ==> valid == Err::<(), DaemonError>(DaemonError::EmptyWorkspaceName),
        !is_blank(name@) ==> valid == Ok::<(), DaemonError>(()),
{
    if blank(name) {
        Err(DaemonError::EmptyWorkspaceName)
    } else {
        Ok(())
    }
}

/// A pane whose process starts over.
pub open spec fn restarted(pane: PaneView) -> PaneView {
    PaneView { status: StatusView::Starting, ..pane }
}

/// Whether a pane's process is starting or running, so that it has a session to talk to.
fn pane_has_live_session(status: &SessionStatus) -> (live: bool)
    ensures
        live == is_live(status@),
{
    match status {
        SessionStatus::Starting | SessionStatus::Running => true,
        _ => false,
    }
}

impl DaemonState {
    /// Wraps a persisted snapshot. Processes cannot survive a daemon restart, so every pane
    /// starts over as `Starting`.
    pub fn new(snapshot: AppSnapshot) -> (state: Self)
        ensures
            state@.active_workspace_id == snapshot@.active_workspace_id,
            state@.workspaces == snapshot@.workspaces,
            state@.panes == snapshot@.panes.map_values(|pane: PaneView| restarted(pane)),
    {
        let ghost initial = snapshot@;
        let mut snapshot = snapshot;
        let ghost first_panes = snapshot@.panes;
        let mut index: usize = 0;
        while index < snapshot.panes.len()
            invariant
                index <= snapshot.panes@.len(),
                first_panes.len() == snapshot.panes@.len(),
                forall|j: int| 0 <= j < index ==> #[trigger] snapshot@.panes[j] == restarted(first_panes[j]),
                forall|j: int| index <= j < snapshot@.panes.len() ==> #[trigger] snapshot@.panes[j]
                    == first_panes[j],
                snapshot@.active_workspace_id == initial.active_workspace_id,
                snapshot@.workspaces == initial.workspaces,
            decreases snapshot.panes@.len() - index,
        {
            let ghost before = snapshot@.panes;
            assert(before[index as int] == first_panes[index as int]);
            let pane = snapshot.panes.remove(index);
            let starting = PaneSnapshot { status: SessionStatus::Starting, ..pane };
            snapshot.panes.insert(index, starting);
            proof {
                assert(snapshot@.panes =~= before.update(index as int, starting@));
                assert(pane@ == first_panes[index as int]);
                assert(starting@ == restarted(first_panes[index as int]));
            }
            index += 1;
        }
        proof {
            assert(snapshot@.panes =~= first_panes.map_values(|pane: PaneView| restarted(pane)));
        }
        DaemonState { snapshot }
    }

    /// The authoritative state.
    pub fn snapshot(&self) -> (snapshot: &AppSnapshot)
        ensures
            snapshot@ == self@,
    {
        &self.snapshot
    }

    /// Returns pane metadata by identifier, refusing an unknown one with `PaneNotFound`.
    pub fn pane(&self, pane_id: PaneId) -> (pane: Result<&PaneSnapshot, DaemonError>)
        ensures
            has_pane(self@, pane_id) ==> (pane matches Ok(found) && found@ == self@.panes[pane_index(
                self@,
                pane_id,
            )]),
            !has_pane(self@, pane_id) ==> pane == Err::<&PaneSnapshot, DaemonError>(
                DaemonError::PaneNotFound(pane_id),
            ),
    {
        match find_pane(&self.snapshot.panes, pane_id) {
            Some(index) => Ok(&self.snapshot.panes[index]),
            None => Err(DaemonError::PaneNotFound(pane_id)),
        }
    }

    /// Updates the observed root-process status of a pane, refusing an unknown one with
    /// `PaneNotFound`.
    pub fn set_pane_status(&mut self, pane_id: PaneId, status: SessionStatus) -> (result: Result<
        (),
        DaemonError,
    >)
        ensures
            has_pane(old(self)@, pane_id) ==> result == Ok::<(), DaemonError>(()) && final(self)@
                == with_pane(
                old(self)@,
                pane_index(old(self)@, pane_id),
                PaneView { status: status@, ..old(self)@.panes[pane_index(old(self)@, pane_id)] },
            ),
            !has_pane(old(self)@, pane_id) ==> result == Err::<(), DaemonError>(
                DaemonError::PaneNotFound(pane_id),
            ) && final(self)@ == old(self)@,
    {
        match find_pane(&self.snapshot.panes, pane_id) {
            Some(index) => {
                let pane = self.snapshot.panes.remove(index);
                let ghost removed = self.snapshot.panes@;
                let updated = PaneSnapshot { status, ..pane };
                self.snapshot.panes.insert(index, updated);
                proof {
                    assert(self.snapshot.panes@ =~= old(self).snapshot.panes@.update(index as int, updated));
                    assert(self@.panes =~= old(self)@.panes.update(index as int, updated@));
                }
                Ok(())
            },
            None => Err(DaemonError::PaneNotFound(pane_id)),
        }
    }
}

impl DaemonState {
    /// Stores a terminal-reported working directory and returns whether it changed, comparing
    /// directories as Windows paths (`same_path`); refuses an unknown pane with `PaneNotFound`.
    pub fn set_pane_cwd(&mut self, pane_id: PaneId, cwd: String) -> (result: Result<bool, DaemonError>)
        ensures
            has_pane(old(self)@, pane_id) ==> result == Ok::<bool, DaemonError>(
                !same_path(old(self)@.panes[pane_index(old(self)@, pane_id)].cwd, cwd@),
            ) && final(self)@ == report_cwd_step(old(self)@, pane_id, cwd@).state,
            !has_pane(old(self)@, pane_id) ==> result == Err::<bool, DaemonError>(
                DaemonError::PaneNotFound(pane_id),
            ) && final(self)@ == old(self)@,
    {
        match find_pane(&self.snapshot.panes, pane_id) {
            Some(index) => {
                if paths_equal(self.snapshot.panes[index].cwd.as_str(), cwd.as_str()) {
                    proof {
                        let s = old(self)@;
                        assert(report_cwd_step(s, pane_id, cwd@).state =~= s);
                    }
                    return Ok(false);
                }
                let pane = self.snapshot.panes.remove(index);
                let updated = PaneSnapshot { cwd, ..pane };
                self.snapshot.panes.insert(index, updated);
                proof {
                    assert(self.snapshot.panes@ =~= old(self).snapshot.panes@.update(index as int, updated));
                    assert(self@ =~= report_cwd_step(old(self)@, pane_id, cwd@).state);
                }
                Ok(true)
            },
            None => Err(DaemonError::PaneNotFound(pane_id)),
        }
    }

    fn create_workspace(
        &mut self,
        name: String,
        root: String,
        process_label: &str,
        new_workspace: WorkspaceId,
        new_pane: PaneId,
    ) -> (result: Result<StateChange, DaemonError>)
        ensures
            ({
                let t = create_workspace_step(old(self)@, name@, root@, process_label@, new_workspace, new_pane);
                final(self)@ == t.state && outcome_view(result) == t.outcome
            }),
    {
        if let Err(error) = validate_name(name.as_str()) {
            return Err(error);
        }
        let cwd = root.clone();
        let pane = PaneSnapshot {
            id: new_pane,
            workspace_id: new_workspace,
            status: SessionStatus::Starting,
            cwd,
            process_label: process_label.to_owned(),
            cols: DEFAULT_COLUMNS,
            rows: DEFAULT_ROWS,
        };
        self.snapshot.panes.push(pane);
        self.snapshot.active_workspace_id = Some(new_workspace);
        let workspace = WorkspaceSnapshot {
            id: new_workspace,
            name,
            root,
            layout: LayoutNode::pane(new_pane),
            active_pane_id: Some(new_pane),
        };
        self.snapshot.workspaces.push(workspace);
        proof {
            let t = create_workspace_step(old(self)@, name@, root@, process_label@, new_workspace, new_pane);
            assert(self@.panes =~= t.state.panes);
            assert(self@.workspaces =~= t.state.workspaces);
            assert(self@ =~= t.state);
        }
        Ok(StateChange::mutation(StateAction::SpawnPane(new_pane)))
    }

    fn rename_workspace(&mut self, id: WorkspaceId, name: String) -> (result: Result<StateChange, DaemonError>)
        ensures
            ({
                let t = rename_workspace_step(old(self)@, id, name@);
                final(self)@ == t.state && outcome_view(result) == t.outcome
            }),
    {
        if let Err(error) = validate_name(name.as_str()) {
            return Err(error);
        }
        match find_workspace(&self.snapshot.workspaces, id) {
            None => Err(DaemonError::WorkspaceNotFound(id)),
            Some(index) => {
                let workspace = self.snapshot.workspaces.remove(index);
                let renamed = WorkspaceSnapshot { name, ..workspace };
                self.snapshot.workspaces.insert(index, renamed);
                proof {
                    assert(self.snapshot.workspaces@ =~= old(self).snapshot.workspaces@.update(index as int, renamed));
                    assert(self@ =~= rename_workspace_step(old(self)@, id, name@).state);
                }
                Ok(StateChange::mutation(StateAction::NoAction))
            },
        }
    }

    fn focus_workspace(&mut self, id: WorkspaceId) -> (result: Result<StateChange, DaemonError>)
        ensures
            ({
                let t = focus_workspace_step(old(self)@, id);
                final(self)@ == t.state && outcome_view(result) == t.outcome
            }),
    {
        match find_workspace(&self.snapshot.workspaces, id) {
            None => Err(DaemonError::WorkspaceNotFound(id)),
            Some(_) => {
                self.snapshot.active_workspace_id = Some(id);
                proof {
                    assert(self@ =~= focus_workspace_step(old(self)@, id).state);
                }
                Ok(StateChange::mutation(StateAction::NoAction))
            },
        }
    }

    fn focus_pane(&mut self, pane_id: PaneId) -> (result: Result<StateChange, DaemonError>)
        ensures
            ({
                let t = focus_pane_step(old(self)@, pane_id);
                final(self)@ == t.state && outcome_view(result) == t.outcome
            }),
    {
        let pane_index = match find_pane(&self.snapshot.panes, pane_id) {
            None => return Err(DaemonError::PaneNotFound(pane_id)),
            Some(index) => index,
        };
        let id = self.snapshot.panes[pane_index].workspace_id;
        match find_workspace(&self.snapshot.workspaces, id) {
            None => Err(DaemonError::WorkspaceNotFound(id)),
            Some(index) => {
                let workspace = self.snapshot.workspaces.remove(index);
                let focused = WorkspaceSnapshot { active_pane_id: Some(pane_id), ..workspace };
                self.snapshot.workspaces.insert(index, focused);
                self.snapshot.active_workspace_id = Some(id);
                proof {
                    assert(self.snapshot.workspaces@ =~= old(self).snapshot.workspaces@.update(index as int, focused));
                    assert(self@ =~= focus_pane_step(old(self)@, pane_id).state);
                }
                Ok(StateChange::mutation(StateAction::NoAction))
            },
        }
    }

    fn input(&mut self, pane_id: PaneId, data: Vec<u8>) -> (result: Result<StateChange, DaemonError>)
        ensures
            ({
                let t = input_step(old(self)@, pane_id, data@);
                final(self)@ == t.state && outcome_view(result) == t.outcome
            }),
    {
        match find_pane(&self.snapshot.panes, pane_id) {
            None => Ok(StateChange::runtime(StateAction::NoAction)),
            Some(index) => {
                if pane_has_live_session(&self.snapshot.panes[index].status) {
                    Ok(StateChange::runtime(StateAction::Input { pane_id, data }))
                } else {
                    Ok(StateChange::runtime(StateAction::NoAction))
                }
            },
        }
    }

    fn resize(&mut self, pane_id: PaneId, cols: u16, rows: u16) -> (result: Result<StateChange, DaemonError>)
        ensures
            ({
                let t = resize_step(old(self)@, pane_id, cols, rows);
                final(self)@ == t.state && outcome_view(result) == t.outcome
            }),
    {
        if cols == 0 || rows == 0 {
            return Err(DaemonError::InvalidTerminalSize);
        }
        match find_pane(&self.snapshot.panes, pane_id) {
            None => Ok(StateChange::runtime(StateAction::NoAction)),
            Some(index) => {
                let pane = self.snapshot.panes.remove(index);
                let live = pane_has_live_session(&pane.status);
                let resized = PaneSnapshot { cols, rows, ..pane };
                self.snapshot.panes.insert(index, resized);
                proof {
                    assert(self.snapshot.panes@ =~= old(self).snapshot.panes@.update(index as int, resized));
                    assert(self@ =~= resize_step(old(self)@, pane_id, cols, rows).state);
                }
                if live {
                    Ok(StateChange::mutation(StateAction::Resize { pane_id, cols, rows }))
                } else {
                    Ok(StateChange::mutation(StateAction::NoAction))
                }
            },
        }
    }

    fn report_cwd(&mut self, pane_id: PaneId, cwd: String) -> (result: Result<StateChange, DaemonError>)
        ensures
            ({
                let t = report_cwd_step(old(self)@, pane_id, cwd@);
                final(self)@ == t.state && outcome_view(result) == t.outcome
            }),
    {
        match self.set_pane_cwd(pane_id, cwd) {
            Ok(_) => Ok(StateChange::mutation(StateAction::NoAction)),
            Err(error) => Err(error),
        }
    }

    fn create_pane(&mut self, id: WorkspaceId, process_label: &str, new_pane: PaneId) -> (result: Result<StateChange, DaemonError>)
        ensures
            ({
                let t = create_pane_step(old(self)@, id, process_label@, new_pane);
                final(self)@ == t.state && outcome_view(result) == t.outcome
            }),
    {
        let index = match find_workspace(&self.snapshot.workspaces, id) {
            None => return Err(DaemonError::WorkspaceNotFound(id)),
            Some(index) => index,
        };
        if self.snapshot.workspaces[index].active_pane_id.is_some() {
            return Ok(StateChange::runtime(StateAction::NoAction));
        }
        let workspace = self.snapshot.workspaces.remove(index);
        let cwd = workspace.root.clone();
        let created = WorkspaceSnapshot {
            layout: LayoutNode::pane(new_pane),
            active_pane_id: Some(new_pane),
            ..workspace
        };
        self.snapshot.workspaces.insert(index, created);
        let pane = PaneSnapshot {
            id: new_pane,
            workspace_id: id,
            status: SessionStatus::Starting,
            cwd,
            process_label: process_label.to_owned(),
            cols: DEFAULT_COLUMNS,
            rows: DEFAULT_ROWS,
        };
        self.snapshot.panes.push(pane);
        proof {
            let t = create_pane_step(old(self)@, id, process_label@, new_pane);
            assert(self.snapshot.workspaces@ =~= old(self).snapshot.workspaces@.update(index as int, created));
            assert(self@.workspaces =~= t.state.workspaces);
            assert(self@.panes =~= t.state.panes);
            assert(self@ =~= t.state);
        }
        Ok(StateChange::mutation(StateAction::SpawnPane(new_pane)))
    }
}

fn retain_panes_outside(panes: &mut Vec<PaneSnapshot>, id: WorkspaceId)
    ensures
        pane_views(final(panes)@) == pane_views(old(panes)@).filter(
            outside_workspace(id),
        ),
{
    broadcast use vstd::seq::Seq::lemma_filter_push;

    let mut rest: Vec<PaneSnapshot> = Vec::new();
    std::mem::swap(&mut rest, panes);
    let ghost initial = pane_views(rest@);
    let ghost mut taken: int = 0;
    while rest.len() > 0
        invariant
            0 <= taken <= initial.len(),
            pane_views(rest@) == initial.skip(taken),
            pane_views(panes@) == initial.take(taken).filter(outside_workspace(id)),
        decreases rest@.len(),
    {
        let ghost before = pane_views(panes@);
        let ghost rest_before = rest@;
        proof {
            assert(pane_views(rest_before).len() == initial.len() - taken);
        }
        let pane = rest.remove(0);
        proof {
            assert(rest_before[0] == pane);
            assert(pane_views(rest_before)[0] == pane@);
            assert(initial[taken] == pane@);
            assert(initial.take(taken + 1) =~= initial.take(taken).push(pane@));
            assert(rest@ =~= rest_before.subrange(1, rest_before.len() as int));
            assert forall|i: int| 0 <= i < rest@.len() implies #[trigger] pane_views(rest@)[i] == initial.skip(taken + 1)[i] by {
                assert(rest@[i] == rest_before[i + 1]);
                assert(pane_views(rest_before)[i + 1] == initial.skip(taken)[i + 1]);
            }
            assert(pane_views(rest@) =~= initial.skip(taken + 1));
            initial.take(taken).lemma_filter_push(pane@, outside_workspace(id));
        }
        if pane.workspace_id != id {
            panes.push(pane);
            proof {
                assert(pane_views(panes@) =~= before.push(pane@));
            }
        }
        proof {
            taken = taken + 1;
        }
    }
    proof {
        assert(initial.take(taken) =~= initial);
    }
}

fn retain_other_panes(panes: &mut Vec<PaneSnapshot>, pane_id: PaneId)
    ensures
        pane_views(final(panes)@) == pane_views(old(panes)@).filter(
            other_pane(pane_id),
        ),
{
    broadcast use vstd::seq::Seq::lemma_filter_push;

    let mut rest: Vec<PaneSnapshot> = Vec::new();
    std::mem::swap(&mut rest, panes);
    let ghost initial = pane_views(rest@);
    let ghost mut taken: int = 0;
    while rest.len() > 0
        invariant
            0 <= taken <= initial.len(),
            pane_views(rest@) == initial.skip(taken),
            pane_views(panes@) == initial.take(taken).filter(other_pane(pane_id)),
        decreases rest@.len(),
    {
        let ghost before = pane_views(panes@);
        let ghost rest_before = rest@;
        proof {
            assert(pane_views(rest_before).len() == initial.len() - taken);
        }
        let pane = rest.remove(0);
        proof {
            assert(rest_before[0] == pane);
            assert(pane_views(rest_before)[0] == pane@);
            assert(initial[taken] == pane@);
            assert(initial.take(taken + 1) =~= initial.take(taken).push(pane@));
            assert(rest@ =~= rest_before.subrange(1, rest_before.len() as int));
            assert forall|i: int| 0 <= i < rest@.len() implies #[trigger] pane_views(rest@)[i] == initial.skip(taken + 1)[i] by {
                assert(rest@[i] == rest_before[i + 1]);
                assert(pane_views(rest_before)[i + 1] == initial.skip(taken)[i + 1]);
            }
            assert(pane_views(rest@) =~= initial.skip(taken + 1));
            initial.take(taken).lemma_filter_push(pane@, other_pane(pane_id));
        }
        if pane.id != pane_id {
            panes.push(pane);
            proof {
                assert(pane_views(panes@) =~= before.push(pane@));
            }
        }
        proof {
            taken = taken + 1;
        }
    }
    proof {
        assert(initial.take(taken) =~= initial);
    }
}

fn ids_other_than(ids: &Vec<PaneId>, pane_id: PaneId) -> (kept: Vec<PaneId>)
    ensures
        kept@ == ids@.filter(other_than(pane_id)),
{
    broadcast use vstd::seq::Seq::lemma_filter_push;

    let mut kept: Vec<PaneId> = Vec::new();
    let mut index: usize = 0;
    while index < ids.len()
        invariant
            index <= ids@.len(),
            kept@ == ids@.take(index as int).filter(other_than(pane_id)),
        decreases ids@.len() - index,
    {
        proof {
            assert(ids@.take(index + 1) =~= ids@.take(index as int).push(ids@[index as int]));
            ids@.take(index as int).lemma_filter_push(ids@[index as int], other_than(pane_id));
        }
        if ids[index] != pane_id {
            kept.push(ids[index]);
        }
        index += 1;
    }
    proof {
        assert(ids@.take(ids@.len() as int) =~= ids@);
    }
    kept
}

fn ids_missing_from(ids: &Vec<PaneId>, others: &Vec<PaneId>) -> (missing: Vec<PaneId>)
    ensures
        missing@ == ids@.filter(not_in(others@)),
{
    broadcast use vstd::seq::Seq::lemma_filter_push;

    let mut missing: Vec<PaneId> = Vec::new();
    let mut index: usize = 0;
    while index < ids.len()
        invariant
            index <= ids@.len(),
            missing@ == ids@.take(index as int).filter(not_in(others@)),
        decreases ids@.len() - index,
    {
        proof {
            assert(ids@.take(index + 1) =~= ids@.take(index as int).push(ids@[index as int]));
            ids@.take(index as int).lemma_filter_push(ids@[index as int], not_in(others@));
        }
        if !vec_contains(others, ids[index]) {
            missing.push(ids[index]);
        }
        index += 1;
    }
    proof {
        assert(ids@.take(ids@.len() as int) =~= ids@);
    }
    missing
}

fn least(ids: &Vec<PaneId>) -> (smallest: PaneId)
    requires
        ids@.len() > 0,
    ensures
        smallest == least_pane(ids@),
{
    let mut index: usize = ids.len() - 1;
    let mut smallest = ids[index];
    proof {
        assert(ids@.skip(index as int).len() == 1);
    }
    while index > 0
        invariant
            index < ids@.len(),
            smallest == least_pane(ids@.skip(index as int)),
        decreases index,
    {
        index -= 1;
        let candidate = ids[index];
        proof {
            assert(ids@.skip(index as int).drop_first() =~= ids@.skip(index + 1));
            assert(ids@.skip(index as int)[0] == candidate);
        }
        if candidate.value <= smallest.value {
            smallest = candidate;
        }
    }
    proof {
        assert(ids@.skip(0) =~= ids@);
    }
    smallest
}

fn same_panes(current: &Vec<PaneId>, received: &Vec<PaneId>) -> (same: bool)
    requires
        received@.no_duplicates(),
    ensures
        same == (current@.to_multiset() =~= received@.to_multiset()),
{
    proof {
        lemma_same_multiset(current@, received@);
    }
    if current.len() != received.len() {
        return false;
    }
    let mut index: usize = 0;
    while index < current.len()
        invariant
            index <= current@.len(),
            current@.len() == received@.len(),
            received@.no_duplicates(),
            forall|i: int| 0 <= i < index ==> received@.contains(#[trigger] current@[i]),
            forall|i: int, j: int| 0 <= i < j < index ==> current@[i] != current@[j],
        decreases current@.len() - index,
    {
        let pane = current[index];
        proof {
            assert(current@.contains(pane));
        }
        if !vec_contains(received, pane) {
            proof {
                lemma_same_multiset(current@, received@);
            }
            return false;
        }
        let mut earlier: usize = 0;
        while earlier < index
            invariant
                earlier <= index < current@.len(),
                current@.len() == received@.len(),
                received@.no_duplicates(),
                pane == current@[index as int],
                received@.contains(pane),
                forall|i: int| 0 <= i < index ==> received@.contains(#[trigger] current@[i]),
                forall|i: int, j: int| 0 <= i < j < index ==> current@[i] != current@[j],
                forall|i: int| 0 <= i < earlier ==> current@[i] != pane,
            decreases index - earlier,
        {
            if current[earlier] == pane {
                proof {
                    assert(!current@.no_duplicates());
                    lemma_same_multiset(current@, received@);
                }
                return false;
            }
            earlier += 1;
        }
        index += 1;
    }
    proof {
        assert forall|x: PaneId| current@.contains(x) implies received@.contains(x) by {
            let i = choose|i: int| 0 <= i < current@.len() && current@[i] == x;
            assert(received@.contains(current@[i]));
        }
        lemma_same_multiset(current@, received@);
    }
    true
}

fn mismatch(current: &Vec<PaneId>, received: &Vec<PaneId>) -> (pane: PaneId)
    requires
        !(current@.to_multiset() =~= received@.to_multiset()),
    ensures
        pane == mismatched_pane(current@, received@),
{
    let missing = ids_missing_from(current, received);
    if missing.len() > 0 {
        least(&missing)
    } else {
        proof {
            if received@.len() == 0 {
                assert(current@.len() > 0) by {
                    if current@.len() == 0 {
                        assert(current@ =~= received@);
                    }
                }
                assert(current@.filter(not_in(received@)).contains(current@[0])) by {
                    vstd::seq::Seq::lemma_filter_contains_rev(current@, not_in(received@), current@[0]);
                }
            }
        }
        least(received)
    }
}

impl DaemonState {
    fn close_workspace(&mut self, id: WorkspaceId) -> (result: Result<StateChange, DaemonError>)
        ensures
            ({
                let t = close_workspace_step(old(self)@, id);
                final(self)@ == t.state && outcome_view(result) == t.outcome
            }),
    {
        let index = match find_workspace(&self.snapshot.workspaces, id) {
            None => return Err(DaemonError::WorkspaceNotFound(id)),
            Some(index) => index,
        };
        let closed = self.snapshot.workspaces.remove(index);
        let panes = closed.layout.pane_ids();
        retain_panes_outside(&mut self.snapshot.panes, id);
        let was_active = match self.snapshot.active_workspace_id {
            Some(active) => active == id,
            None => false,
        };
        if was_active {
            let remaining = self.snapshot.workspaces.len();
            self.snapshot.active_workspace_id = if remaining == 0 {
                None
            } else if index < remaining {
                Some(self.snapshot.workspaces[index].id)
            } else {
                Some(self.snapshot.workspaces[remaining - 1].id)
            };
        }
        proof {
            let t = close_workspace_step(old(self)@, id);
            assert(self@.workspaces =~= t.state.workspaces);
            assert(self@ =~= t.state);
        }
        Ok(StateChange::mutation(StateAction::ClosePanes(panes)))
    }

    fn split_pane(&mut self, id: WorkspaceId, target: PaneId, process_label: &str, new_pane: PaneId) -> (result: Result<StateChange, DaemonError>)
        ensures
            ({
                let t = split_pane_step(old(self)@, id, target, process_label@, new_pane);
                final(self)@ == t.state && outcome_view(result) == t.outcome
            }),
    {
        let source_index = match find_pane(&self.snapshot.panes, target) {
            None => return Err(DaemonError::PaneNotFound(target)),
            Some(index) => index,
        };
        if self.snapshot.panes[source_index].workspace_id != id {
            return Err(DaemonError::PaneNotFound(target));
        }
        let index = match find_workspace(&self.snapshot.workspaces, id) {
            None => return Err(DaemonError::WorkspaceNotFound(id)),
            Some(index) => index,
        };
        let mut panes = self.snapshot.workspaces[index].layout.pane_ids();
        if panes.len() >= MAX_TERMINALS_PER_WORKSPACE {
            return Err(
                DaemonError::TerminalLimitReached {
                    workspace_id: id,
                    limit: MAX_TERMINALS_PER_WORKSPACE,
                },
            );
        }
        panes.push(new_pane);
        let layout = managed_terminal_layout(panes.as_slice());
        let cwd = self.snapshot.panes[source_index].cwd.clone();
        let cols = self.snapshot.panes[source_index].cols;
        let rows = self.snapshot.panes[source_index].rows;
        let workspace = self.snapshot.workspaces.remove(index);
        let grown = WorkspaceSnapshot { layout, active_pane_id: Some(new_pane), ..workspace };
        self.snapshot.workspaces.insert(index, grown);
        let pane = PaneSnapshot {
            id: new_pane,
            workspace_id: id,
            status: SessionStatus::Starting,
            cwd,
            process_label: process_label.to_owned(),
            cols,
            rows,
        };
        self.snapshot.panes.push(pane);
        proof {
            let t = split_pane_step(old(self)@, id, target, process_label@, new_pane);
            assert(self.snapshot.workspaces@ =~= old(self).snapshot.workspaces@.update(index as int, grown));
            assert(self@.workspaces =~= t.state.workspaces);
            assert(self@.panes =~= t.state.panes);
            assert(self@ =~= t.state);
        }
        Ok(StateChange::mutation(StateAction::SpawnPane(new_pane)))
    }

    fn close_pane(&mut self, pane_id: PaneId) -> (result: Result<StateChange, DaemonError>)
        requires
            close_pane_fits(old(self)@, pane_id),
        ensures
            ({
                let t = close_pane_step(old(self)@, pane_id);
                final(self)@ == t.state && outcome_view(result) == t.outcome
            }),
    {
        let pane_index = match find_pane(&self.snapshot.panes, pane_id) {
            None => return Ok(StateChange::runtime(StateAction::NoAction)),
            Some(index) => index,
        };
        let id = self.snapshot.panes[pane_index].workspace_id;
        let index = match find_workspace(&self.snapshot.workspaces, id) {
            None => return Err(DaemonError::WorkspaceNotFound(id)),
            Some(index) => index,
        };
        let workspace = self.snapshot.workspaces.remove(index);
        let panes = workspace.layout.pane_ids();
        let shrunk = if panes.len() == 1 {
            WorkspaceSnapshot { layout: LayoutNode::Empty, active_pane_id: None, ..workspace }
        } else {
            let remaining = ids_other_than(&panes, pane_id);
            let layout = managed_terminal_layout(remaining.as_slice());
            let had_focus = match workspace.active_pane_id {
                Some(active) => active == pane_id,
                None => false,
            };
            let active_pane_id = if had_focus {
                if remaining.len() == 0 {
                    None
                } else {
                    Some(remaining[0])
                }
            } else {
                workspace.active_pane_id
            };
            WorkspaceSnapshot { layout, active_pane_id, ..workspace }
        };
        self.snapshot.workspaces.insert(index, shrunk);
        retain_other_panes(&mut self.snapshot.panes, pane_id);
        proof {
            let t = close_pane_step(old(self)@, pane_id);
            assert(self.snapshot.workspaces@ =~= old(self).snapshot.workspaces@.update(index as int, shrunk));
            assert(self@.workspaces =~= t.state.workspaces);
            assert(self@ =~= t.state);
        }
        Ok(StateChange::mutation(StateAction::ClosePane(pane_id)))
    }

    fn update_layout(&mut self, id: WorkspaceId, layout: LayoutNode) -> (result: Result<StateChange, DaemonError>)
        ensures
            ({
                let t = update_layout_step(old(self)@, id, layout);
                final(self)@ == t.state && outcome_view(result) == t.outcome
            }),
    {
        match layout.validate() {
            Err(error) => return Err(DaemonError::Layout(error)),
            Ok(()) => {},
        }
        proof {
            validate_accepts_exactly(layout);
        }
        let index = match find_workspace(&self.snapshot.workspaces, id) {
            None => return Err(DaemonError::WorkspaceNotFound(id)),
            Some(index) => index,
        };
        let current = self.snapshot.workspaces[index].layout.pane_ids();
        let received = layout.pane_ids();
        if !same_panes(&current, &received) {
            let missing = mismatch(&current, &received);
            return Err(DaemonError::Layout(LayoutError::PaneNotFound(missing)));
        }
        let workspace = self.snapshot.workspaces.remove(index);
        let updated = WorkspaceSnapshot { layout, ..workspace };
        self.snapshot.workspaces.insert(index, updated);
        proof {
            let t = update_layout_step(old(self)@, id, layout);
            assert(self.snapshot.workspaces@ =~= old(self).snapshot.workspaces@.update(index as int, updated));
            assert(self@ =~= t.state);
        }
        Ok(StateChange::mutation(StateAction::NoAction))
    }
}

impl DaemonState {
    /// Validates and applies one client request, with the identifiers that a new workspace and
    /// a new pane take, returning the request's runtime side effect.
    pub fn handle_with_ids(
        &mut self,
        request: ClientRequest,
        process_label: &str,
        new_workspace: WorkspaceId,
        new_pane: PaneId,
    ) -> (result: Result<StateChange, DaemonError>)
        requires
            request_fits(old(self)@, request),
        ensures
            ({
                let t = step(old(self)@, request, process_label@, new_workspace, new_pane);
                final(self)@ == t.state && outcome_view(result) == t.outcome
            }),
    {
        match request {
            ClientRequest::Attach | ClientRequest::GetSnapshot => Ok(
                StateChange::runtime(StateAction::NoAction),
            ),
            ClientRequest::CreateWorkspace { name, root } => self.create_workspace(
                name,
                root,
                process_label,
                new_workspace,
                new_pane,
            ),
            ClientRequest::RenameWorkspace { workspace_id, name } => self.rename_workspace(
                workspace_id,
                name,
            ),
            ClientRequest::CloseWorkspace { workspace_id } => self.close_workspace(workspace_id),
            ClientRequest::CreatePane { workspace_id } => self.create_pane(
                workspace_id,
                process_label,
                new_pane,
            ),
            ClientRequest::SplitPane { workspace_id, target, direction: _ } => self.split_pane(
                workspace_id,
                target,
                process_label,
                new_pane,
            ),
            ClientRequest::ClosePane { pane_id } => self.close_pane(pane_id),
            ClientRequest::FocusWorkspace { workspace_id } => self.focus_workspace(workspace_id),
            ClientRequest::FocusPane { pane_id } => self.focus_pane(pane_id),
            ClientRequest::UpdateLayout { workspace_id, layout } => self.update_layout(
                workspace_id,
                layout,
            ),
            ClientRequest::Input { pane_id, data } => self.input(pane_id, data),
            ClientRequest::Resize { pane_id, cols, rows } => self.resize(pane_id, cols, rows),
            ClientRequest::ReportCwd { pane_id, cwd } => self.report_cwd(pane_id, cwd),
            ClientRequest::Shutdown => Ok(StateChange::runtime(StateAction::Shutdown)),
        }
    }

    /// Whether handling `request` runs to completion: closing a pane must leave its workspace
    /// with rows of at most `u16::MAX` panes (see `close_pane_fits`).
    pub fn request_fits(&self, request: &ClientRequest) -> (fits: bool)
        ensures
            fits == request_fits(self@, *request),
    {
        match request {
            ClientRequest::ClosePane { pane_id } => {
                let pane_id = *pane_id;
                match find_pane(&self.snapshot.panes, pane_id) {
                    None => true,
                    Some(p) => {
                        let workspace_id = self.snapshot.panes[p].workspace_id;
                        proof {
                            assert(self@.panes[p as int] == self.snapshot.panes@[p as int]@);
                        }
                        match find_workspace(&self.snapshot.workspaces, workspace_id) {
                            None => true,
                            Some(w) => {
                                proof {
                                    assert(self@.workspaces[w as int]
                                        == self.snapshot.workspaces@[w as int]@);
                                }
                                let ids = self.snapshot.workspaces[w].layout.pane_ids();
                                let count = ids_other_than(&ids, pane_id).len();
                                let half_up = count / 2 + count % 2;
                                let first_len = if half_up <= 3 {
                                    half_up
                                } else {
                                    3
                                };
                                count <= 3 || count - first_len <= u16::MAX as usize
                            },
                        }
                    },
                }
            },
            _ => true,
        }
    }

    /// Validates and applies one client request, returning its runtime side effect. A new
    /// workspace or pane gets a fresh random identifier; whatever identifiers were drawn, the
    /// state and outcome are those of `step` for them.
    pub fn handle(&mut self, request: ClientRequest, process_label: &str) -> (result: Result<
        StateChange,
        DaemonError,
    >)
        requires
            request_fits(old(self)@, request),
        ensures
            exists|new_workspace: WorkspaceId, new_pane: PaneId|
                {
                    let t = #[trigger] step(old(self)@, request, process_label@, new_workspace, new_pane);
                    &&& is_random_uuid(new_workspace.value)
                    &&& is_random_uuid(new_pane.value)
                    &&& final(self)@ == t.state
                    &&& outcome_view(result) == t.outcome
                },
    {
        let new_workspace = WorkspaceId::new();
        let new_pane = PaneId::new();
        self.handle_with_ids(request, process_label, new_workspace, new_pane)
    }
}

/// The stored form of a workspace.
pub fn workspace_snapshot(workspace: Workspace) -> (snapshot: WorkspaceSnapshot)
    ensures
        snapshot.id == workspace.id,
        snapshot.name == workspace.name,
        snapshot.root == workspace.root_directory,
        snapshot.layout == workspace.layout,
        snapshot.active_pane_id == workspace.active_pane_id,
{
    WorkspaceSnapshot {
        id: workspace.id,
        name: workspace.name,
        root: workspace.root_directory,
        layout: workspace.layout,
        active_pane_id: workspace.active_pane_id,
    }
}

/// The prompt hook that PowerShell sessions run: each prompt reports the working directory as
/// an OSC 7 `file:` URL and writes a hidden block divider.
pub const POWERSHELL_PROMPT_HOOK: &'static str = r#"$global:__ade_original_prompt=$function:prompt; function global:prompt { $uri=([uri](Get-Location).ProviderPath).AbsoluteUri; [Console]::Write("$([char]27)]7;$uri$([char]7)"); [Console]::Write("$([char]27)[8m__ADE_BLOCK_DIVIDER__$([char]27)[0m`r`n"); & $global:__ade_original_prompt }"#;

/// Whether a shell's file name names PowerShell (`pwsh.exe` or `powershell.exe`, ignoring ASCII
/// case).
pub open spec fn is_powershell(shell_name: Seq<char>) -> bool {
    lowercase_ascii(shell_name) == "pwsh.exe"@ || lowercase_ascii(shell_name) == "powershell.exe"@
}

/// The command that starts a pane's shell in `cwd`: PowerShell also gets `-NoExit -Command`
/// with the prompt hook; other shells start bare. `shell_name` is the file name of `shell`.
pub fn pane_command(shell: String, shell_name: &str, cwd: String) -> (command: SpawnCommand)
    ensures
        command.executable == shell,
        command.current_directory == cwd,
        is_powershell(shell_name@) ==> command.arguments@.map_values(|a: String| a@) == seq![
            "-NoExit"@,
            "-Command"@,
            POWERSHELL_PROMPT_HOOK@,
        ],
        !is_powershell(shell_name@) ==> command.arguments@.len() == 0,
{
    let command = SpawnCommand { executable: shell, arguments: Vec::new(), current_directory: cwd };
    let name = string_from_chars(&to_ascii_lowercase(&chars_of(shell_name)));
    let is_pwsh = text_equals(name.as_str(), "pwsh.exe");
    let is_powershell_exe = text_equals(name.as_str(), "powershell.exe");
    if is_pwsh || is_powershell_exe {
        let arguments: Vec<String> = vec![
            "-NoExit".to_string(),
            "-Command".to_string(),
            POWERSHELL_PROMPT_HOOK.to_string(),
        ];
        proof {
            assert(arguments@.map_values(|a: String| a@) =~= seq![
                "-NoExit"@,
                "-Command"@,
                POWERSHELL_PROMPT_HOOK@,
            ]);
        }
        SpawnCommand { arguments, ..command }
    } else {
        command
    }
}

/// What the daemon does with a request that a client sent.
#[derive(Clone, Copy, Debug, PartialEq, Eq, Structural)]
pub enum RequestRoute {
    /// The client speaks another protocol version: answer with this error and go on.
    Refuse(DaemonError),
    /// Replay the snapshot and kept output, then send live events to this client.
    Attach,
    /// Answer with the current snapshot only.
    Snapshot,
    /// Hand the request to the state and apply its change.
    Apply,
}

/// Routes a client's request by its protocol version and kind.
pub fn route_request(protocol_version: u32, request: &ClientRequest) -> (route: RequestRoute)
    ensures
        protocol_version != PROTOCOL_VERSION ==> route == RequestRoute::Refuse(
            DaemonError::ProtocolVersion { received: protocol_version, expected: PROTOCOL_VERSION },
        ),
        protocol_version == PROTOCOL_VERSION ==> route == match *request {
            ClientRequest::Attach => RequestRoute::Attach,
            ClientRequest::GetSnapshot => RequestRoute::Snapshot,
            _ => RequestRoute::Apply,
        },
{
    if protocol_version != PROTOCOL_VERSION {
        return RequestRoute::Refuse(
            DaemonError::ProtocolVersion { received: protocol_version, expected: PROTOCOL_VERSION },
        );
    }
    match request {
        ClientRequest::Attach => RequestRoute::Attach,
        ClientRequest::GetSnapshot => RequestRoute::Snapshot,
        _ => RequestRoute::Apply,
    }
}

} // verus!
