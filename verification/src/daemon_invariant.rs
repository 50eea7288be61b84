use vstd::prelude::*;

use crate::daemon::{
    close_pane_step, close_workspace_step, create_pane_step, create_workspace_step,
    focus_pane_step, focus_workspace_step, has_pane, has_workspace, other_pane, other_than,
    outside_workspace, pane_ids_of, pane_index, rename_workspace_step, report_cwd_step, request_fits,
    resize_step, split_pane_step, step, update_layout_step, workspace_ids_of, workspace_index,
    workspace_without_pane,
};
use crate::daemon_laws::within_terminal_cap;
use crate::ids::{PaneId, WorkspaceId};
use crate::layout::LayoutNode;
use crate::layout_laws::{managed_layout_is_valid, managed_layout_keeps_panes, validate_accepts_exactly};
use crate::protocol::{AppView, ClientRequest, PaneView, WorkspaceView};
use crate::seq_facts::{
    first_index, lemma_first_index_bounds, lemma_first_index_concat, lemma_same_multiset,
};

verus! {

/// A workspace's focused pane is one of its panes, and it has none exactly when it has no pane.
pub open spec fn focus_fits_layout(workspace: WorkspaceView) -> bool {
    match workspace.active_pane_id {
        Some(pane_id) => workspace.layout.panes().contains(pane_id),
        None => workspace.layout.panes().len() == 0,
    }
}

/// A pane record names an existing workspace, and that workspace's layout holds the pane.
pub open spec fn is_placed(state: AppView, pane: PaneView) -> bool {
    has_workspace(state, pane.workspace_id) && state.workspaces[workspace_index(
        state,
        pane.workspace_id,
    )].layout.panes().contains(pane.id)
}

/// The daemon state is consistent: workspace identifiers are distinct, the focused workspace
/// exists, each workspace's layout is valid, holds at most six terminals and holds its focused
/// pane (and has a focused pane unless it is empty), and every pane record sits in the layout of
/// the workspace it names.
pub open spec fn consistent(state: AppView) -> bool {
    &&& within_terminal_cap(state)
    &&& workspace_ids_of(state.workspaces).no_duplicates()
    &&& (state.active_workspace_id matches Some(id) ==> has_workspace(state, id))
    &&& forall|i: int|
        0 <= i < state.workspaces.len() ==> focus_fits_layout(#[trigger] state.workspaces[i])
    &&& forall|i: int|
        0 <= i < state.workspaces.len() ==> (#[trigger] state.workspaces[i]).layout.validation() is Ok
    &&& forall|j: int| 0 <= j < state.panes.len() ==> is_placed(state, #[trigger] state.panes[j])
}

/// The identifiers drawn for a new workspace and a new pane are not in use: no workspace has the
/// first and no pane the second.
pub open spec fn ids_are_fresh(state: AppView, new_workspace: WorkspaceId, new_pane: PaneId) -> bool {
    &&& !workspace_ids_of(state.workspaces).contains(new_workspace)
    &&& !pane_ids_of(state.panes).contains(new_pane)
}

proof fn lemma_index_of_unique<A>(ids: Seq<A>, k: int)
    requires
        ids.no_duplicates(),
        0 <= k < ids.len(),
    ensures
        first_index(ids, ids[k]) == k,
{
    lemma_first_index_bounds(ids, ids[k]);
    assert(ids.contains(ids[k]));
}

/// Where workspace `k` of a state with distinct workspace identifiers is found.
proof fn lemma_workspace_at(state: AppView, k: int)
    requires
        workspace_ids_of(state.workspaces).no_duplicates(),
        0 <= k < state.workspaces.len(),
    ensures
        has_workspace(state, state.workspaces[k].id),
        workspace_index(state, state.workspaces[k].id) == k,
{
    let ids = workspace_ids_of(state.workspaces);
    assert(ids[k] == state.workspaces[k].id);
    lemma_index_of_unique(ids, k);
}

/// Where a found workspace is.
proof fn lemma_found_workspace(state: AppView, id: WorkspaceId)
    requires
        has_workspace(state, id),
    ensures
        0 <= workspace_index(state, id) < state.workspaces.len(),
        state.workspaces[workspace_index(state, id)].id == id,
{
    lemma_first_index_bounds(workspace_ids_of(state.workspaces), id);
}

proof fn lemma_ids_kept(a: Seq<WorkspaceView>, b: Seq<WorkspaceView>)
    requires
        a.len() == b.len(),
        forall|i: int| 0 <= i < a.len() ==> (#[trigger] a[i]).id == b[i].id,
    ensures
        workspace_ids_of(a) == workspace_ids_of(b),
{
    assert(workspace_ids_of(a) =~= workspace_ids_of(b));
}

/// A step that rewrites one workspace in place, keeping its identifier, its layout's panes and
/// the validity of its layout and focus, and rewrites pane records in place keeping their
/// identifiers and workspaces, keeps the state consistent.
proof fn lemma_in_place(state: AppView, after: AppView, index: int)
    requires
        consistent(state),
        0 <= index < state.workspaces.len(),
        after.workspaces.len() == state.workspaces.len(),
        forall|i: int| 0 <= i < state.workspaces.len() && i != index ==> (#[trigger] after.workspaces[i])
            == state.workspaces[i],
        after.workspaces[index].id == state.workspaces[index].id,
        after.workspaces[index].layout.validation() is Ok,
        focus_fits_layout(after.workspaces[index]),
        after.workspaces[index].layout.panes().len() <= crate::layout::MAX_TERMINALS_PER_WORKSPACE,
        forall|p: PaneId| #[trigger] state.workspaces[index].layout.panes().contains(p)
            ==> after.workspaces[index].layout.panes().contains(p),
        after.panes.len() == state.panes.len(),
        forall|j: int| 0 <= j < state.panes.len() ==> (#[trigger] after.panes[j]).id == state.panes[j].id
            && after.panes[j].workspace_id == state.panes[j].workspace_id,
        after.active_workspace_id matches Some(id) ==> has_workspace(state, id),
    ensures
        consistent(after),
{
    lemma_ids_kept(after.workspaces, state.workspaces);
    assert forall|i: int| 0 <= i < after.workspaces.len() implies focus_fits_layout(
        #[trigger] after.workspaces[i],
    ) by {
        if i != index {
            assert(after.workspaces[i] == state.workspaces[i]);
        }
    }
    assert forall|i: int| 0 <= i < after.workspaces.len() implies (
    #[trigger] after.workspaces[i]).layout.validation() is Ok by {
        if i != index {
            assert(after.workspaces[i] == state.workspaces[i]);
        }
    }
    assert forall|i: int| 0 <= i < after.workspaces.len() implies (
    #[trigger] after.workspaces[i]).layout.panes().len() <= crate::layout::MAX_TERMINALS_PER_WORKSPACE by {
        if i != index {
            assert(after.workspaces[i] == state.workspaces[i]);
        }
    }
    assert forall|j: int| 0 <= j < after.panes.len() implies is_placed(after, #[trigger] after.panes[j]) by {
        let pane = state.panes[j];
        assert(is_placed(state, pane));
        let k = workspace_index(state, pane.workspace_id);
        lemma_found_workspace(state, pane.workspace_id);
        if k != index {
            assert(after.workspaces[k] == state.workspaces[k]);
        } else {
            assert(state.workspaces[index].layout.panes().contains(pane.id));
        }
    }
}

/// Renaming a workspace keeps the state consistent.
proof fn lemma_rename_consistent(state: AppView, id: WorkspaceId, name: Seq<char>)
    requires
        consistent(state),
    ensures
        consistent(rename_workspace_step(state, id, name).state),
{
    let after = rename_workspace_step(state, id, name).state;
    if after != state {
        let index = workspace_index(state, id);
        lemma_found_workspace(state, id);
        lemma_in_place(state, after, index);
    }
}

/// Focusing a workspace keeps the state consistent.
proof fn lemma_focus_workspace_consistent(state: AppView, id: WorkspaceId)
    requires
        consistent(state),
    ensures
        consistent(focus_workspace_step(state, id).state),
{
}

/// Focusing a pane keeps the state consistent.
proof fn lemma_focus_pane_consistent(state: AppView, pane_id: PaneId)
    requires
        consistent(state),
    ensures
        consistent(focus_pane_step(state, pane_id).state),
{
    let after = focus_pane_step(state, pane_id).state;
    if has_pane(state, pane_id) {
        let j = pane_index(state, pane_id);
        lemma_first_index_bounds(crate::daemon::pane_ids_of(state.panes), pane_id);
        let id = state.panes[j].workspace_id;
        assert(is_placed(state, state.panes[j]));
        if has_workspace(state, id) {
            let index = workspace_index(state, id);
            lemma_found_workspace(state, id);
            lemma_in_place(state, after, index);
        }
    }
}

/// Replacing a workspace's layout by a valid one with the same panes keeps the state consistent.
proof fn lemma_update_layout_consistent(state: AppView, id: WorkspaceId, layout: LayoutNode)
    requires
        consistent(state),
    ensures
        consistent(update_layout_step(state, id, layout).state),
{
    let after = update_layout_step(state, id, layout).state;
    if after != state {
        let index = workspace_index(state, id);
        lemma_found_workspace(state, id);
        let current = state.workspaces[index].layout.panes();
        let received = layout.panes();
        validate_accepts_exactly(state.workspaces[index].layout);
        validate_accepts_exactly(layout);
        lemma_same_multiset(received, current);
        lemma_same_multiset(current, received);
        crate::daemon_laws::terminal_cap_is_kept(
            state,
            crate::protocol::ClientRequest::UpdateLayout { workspace_id: id, layout },
            seq![],
            arbitrary(),
            arbitrary(),
        );
        assert(after.workspaces[index] == crate::daemon::step(
            state,
            crate::protocol::ClientRequest::UpdateLayout { workspace_id: id, layout },
            seq![],
            arbitrary(),
            arbitrary(),
        ).state.workspaces[index]);
        if received.len() > 0 {
            assert(received.contains(received[0]));
        }
        lemma_in_place(state, after, index);
    }
}

/// Recording a pane's size or directory keeps the state consistent.
proof fn lemma_pane_record_consistent(state: AppView, pane_id: PaneId, cols: u16, rows: u16, cwd: Seq<char>)
    requires
        consistent(state),
    ensures
        consistent(resize_step(state, pane_id, cols, rows).state),
        consistent(report_cwd_step(state, pane_id, cwd).state),
{
    if state.workspaces.len() > 0 {
        lemma_in_place(state, resize_step(state, pane_id, cols, rows).state, 0);
        lemma_in_place(state, report_cwd_step(state, pane_id, cwd).state, 0);
    } else {
        assert(state.panes.len() == 0 || is_placed(state, state.panes[0]));
        if state.panes.len() > 0 {
            lemma_found_workspace(state, state.panes[0].workspace_id);
        }
    }
}

/// Creating a workspace under fresh identifiers keeps the state consistent.
#[verifier::rlimit(40)]
proof fn lemma_create_workspace_consistent(
    state: AppView,
    name: Seq<char>,
    root: Seq<char>,
    label: Seq<char>,
    new_workspace: WorkspaceId,
    new_pane: PaneId,
)
    requires
        consistent(state),
        ids_are_fresh(state, new_workspace, new_pane),
    ensures
        consistent(create_workspace_step(state, name, root, label, new_workspace, new_pane).state),
{
    let after = create_workspace_step(state, name, root, label, new_workspace, new_pane).state;
    if after != state {
        let ids = workspace_ids_of(state.workspaces);
        let n = state.workspaces.len() as int;
        assert(workspace_ids_of(after.workspaces) =~= ids + seq![new_workspace]);
        assert forall|a: int, b: int|
            0 <= a < b < ids.len() + 1 implies (ids + seq![new_workspace])[a] != (ids
            + seq![new_workspace])[b] by {
            if b == n {
                assert(ids[a] == (ids + seq![new_workspace])[a]);
                assert(ids.contains(ids[a]));
            }
        }
        assert((LayoutNode::Pane { pane_id: new_pane }).panes() =~= seq![new_pane]);
        assert(seq![new_pane][0] == new_pane);
        assert(seq![new_pane].contains(new_pane));
        lemma_first_index_concat(ids, seq![new_workspace], new_workspace);
        assert(first_index(seq![new_workspace], new_workspace) == 0);
        crate::daemon_laws::terminal_cap_is_kept(
            state,
            crate::protocol::ClientRequest::CreateWorkspace { name: arbitrary(), root: arbitrary() },
            label,
            new_workspace,
            new_pane,
        );
        validate_accepts_exactly(LayoutNode::Pane { pane_id: new_pane });
        assert forall|i: int| 0 <= i < after.workspaces.len() implies focus_fits_layout(
            #[trigger] after.workspaces[i],
        ) by {
            if i < n {
                assert(after.workspaces[i] == state.workspaces[i]);
            }
        }
        assert forall|i: int| 0 <= i < after.workspaces.len() implies (
        #[trigger] after.workspaces[i]).layout.validation() is Ok by {
            if i < n {
                assert(after.workspaces[i] == state.workspaces[i]);
            }
        }
        assert forall|j: int| 0 <= j < after.panes.len() implies is_placed(
            after,
            #[trigger] after.panes[j],
        ) by {
            if j < state.panes.len() {
                let pane = state.panes[j];
                assert(after.panes[j] == pane);
                assert(is_placed(state, pane));
                lemma_found_workspace(state, pane.workspace_id);
                lemma_first_index_bounds(ids, pane.workspace_id);
                lemma_first_index_concat(ids, seq![new_workspace], pane.workspace_id);
                assert(after.workspaces[workspace_index(state, pane.workspace_id)] == state.workspaces[
                    workspace_index(state, pane.workspace_id)]);
            }
        }
    }
}

/// Creating the pane of an empty workspace under a fresh identifier keeps the state consistent.
proof fn lemma_create_pane_consistent(state: AppView, id: WorkspaceId, label: Seq<char>, new_pane: PaneId)
    requires
        consistent(state),
    ensures
        consistent(create_pane_step(state, id, label, new_pane).state),
{
    let after = create_pane_step(state, id, label, new_pane).state;
    if after != state {
        let index = workspace_index(state, id);
        lemma_found_workspace(state, id);
        lemma_ids_kept(after.workspaces, state.workspaces);
        assert((LayoutNode::Pane { pane_id: new_pane }).panes() =~= seq![new_pane]);
        assert(seq![new_pane][0] == new_pane);
        validate_accepts_exactly(LayoutNode::Pane { pane_id: new_pane });
        assert(focus_fits_layout(state.workspaces[index]));
        assert forall|i: int| 0 <= i < after.workspaces.len() implies focus_fits_layout(
            #[trigger] after.workspaces[i],
        ) && after.workspaces[i].layout.validation() is Ok
            && after.workspaces[i].layout.panes().len() <= crate::layout::MAX_TERMINALS_PER_WORKSPACE by {
            if i != index {
                assert(after.workspaces[i] == state.workspaces[i]);
            }
        }
        assert forall|j: int| 0 <= j < after.panes.len() implies is_placed(
            after,
            #[trigger] after.panes[j],
        ) by {
            if j < state.panes.len() {
                let pane = state.panes[j];
                assert(after.panes[j] == pane);
                assert(is_placed(state, pane));
                lemma_found_workspace(state, pane.workspace_id);
                let k = workspace_index(state, pane.workspace_id);
                if k == index {
                    assert(state.workspaces[index].layout.panes().contains(pane.id));
                    assert(false);
                }
                assert(after.workspaces[k] == state.workspaces[k]);
            }
        }
    }
}

/// Splitting a pane under a fresh identifier keeps the state consistent.
#[verifier::rlimit(40)]
proof fn lemma_split_pane_consistent(
    state: AppView,
    id: WorkspaceId,
    target: PaneId,
    label: Seq<char>,
    new_pane: PaneId,
)
    requires
        consistent(state),
        forall|i: int|
            0 <= i < state.workspaces.len() ==> !(#[trigger] state.workspaces[i]).layout.panes().contains(
                new_pane,
            ),
    ensures
        consistent(split_pane_step(state, id, target, label, new_pane).state),
{
    let after = split_pane_step(state, id, target, label, new_pane).state;
    if after != state {
        let index = workspace_index(state, id);
        lemma_found_workspace(state, id);
        lemma_ids_kept(after.workspaces, state.workspaces);
        let current = state.workspaces[index].layout.panes();
        validate_accepts_exactly(state.workspaces[index].layout);
        assert(!current.contains(new_pane));
        let grown = current.push(new_pane);
        assert forall|a: int, b: int| 0 <= a < b < grown.len() implies grown[a] != grown[b] by {
            if b == current.len() {
                assert(current.contains(current[a]));
            }
        }
        managed_layout_is_valid(grown);
        managed_layout_keeps_panes(grown);
        assert(grown[current.len() as int] == new_pane);
        assert forall|i: int| 0 <= i < after.workspaces.len() implies focus_fits_layout(
            #[trigger] after.workspaces[i],
        ) && after.workspaces[i].layout.validation() is Ok
            && after.workspaces[i].layout.panes().len() <= crate::layout::MAX_TERMINALS_PER_WORKSPACE by {
            if i != index {
                assert(after.workspaces[i] == state.workspaces[i]);
            }
        }
        assert forall|j: int| 0 <= j < after.panes.len() implies is_placed(
            after,
            #[trigger] after.panes[j],
        ) by {
            if j < state.panes.len() {
                let pane = state.panes[j];
                assert(after.panes[j] == pane);
                assert(is_placed(state, pane));
                lemma_found_workspace(state, pane.workspace_id);
                let k = workspace_index(state, pane.workspace_id);
                if k == index {
                    let c = choose|c: int| 0 <= c < current.len() && current[c] == pane.id;
                    assert(grown[c] == pane.id);
                } else {
                    assert(after.workspaces[k] == state.workspaces[k]);
                }
            }
        }
    }
}

/// Keeping some items of a sequence without repeats gives a sequence without repeats.
proof fn lemma_filter_distinct<A>(s: Seq<A>, keep: spec_fn(A) -> bool)
    requires
        s.no_duplicates(),
    ensures
        s.filter(keep).no_duplicates(),
    decreases s.len(),
{
    reveal(Seq::filter);
    if s.len() > 0 {
        let rest = s.drop_last();
        assert forall|a: int, b: int| 0 <= a < b < rest.len() implies rest[a] != rest[b] by {
            assert(rest[a] == s[a] && rest[b] == s[b]);
        }
        lemma_filter_distinct(rest, keep);
        if keep(s.last()) {
            let kept = rest.filter(keep);
            if kept.contains(s.last()) {
                rest.lemma_filter_contains_rev(keep, s.last());
                let c = choose|c: int| 0 <= c < rest.len() && rest[c] == s.last();
                assert(s[c] == s[s.len() - 1]);
            }
            assert forall|a: int, b: int| 0 <= a < b < kept.push(s.last()).len() implies kept.push(
                s.last(),
            )[a] != kept.push(s.last())[b] by {
                if b == kept.len() {
                    assert(kept.contains(kept[a]));
                }
            }
        }
    }
}

/// Closing a pane keeps the state consistent.
#[verifier::rlimit(40)]
proof fn lemma_close_pane_consistent(state: AppView, pane_id: PaneId)
    requires
        consistent(state),
    ensures
        consistent(close_pane_step(state, pane_id).state),
{
    let after = close_pane_step(state, pane_id).state;
    if after != state {
        let q = pane_index(state, pane_id);
        lemma_first_index_bounds(pane_ids_of(state.panes), pane_id);
        assert(state.panes[q].id == pane_id);
        let id = state.panes[q].workspace_id;
        assert(is_placed(state, state.panes[q]));
        let index = workspace_index(state, id);
        lemma_found_workspace(state, id);
        lemma_ids_kept(after.workspaces, state.workspaces);
        let w = state.workspaces[index];
        let current = w.layout.panes();
        let remaining = current.filter(other_than(pane_id));
        assert(current.contains(pane_id));
        validate_accepts_exactly(w.layout);
        current.lemma_filter_len(other_than(pane_id));
        crate::daemon_laws::terminal_cap_is_kept(
            state,
            crate::protocol::ClientRequest::ClosePane { pane_id },
            seq![],
            arbitrary(),
            arbitrary(),
        );
        assert(focus_fits_layout(w));
        let w2 = workspace_without_pane(w, pane_id);
        if current.len() == 1 {
            validate_accepts_exactly(LayoutNode::Empty);
        } else {
            lemma_filter_distinct(current, other_than(pane_id));
            managed_layout_is_valid(remaining);
            managed_layout_keeps_panes(remaining);
            if w.active_pane_id == Some(pane_id) {
                if remaining.len() > 0 {
                    assert(remaining.contains(remaining[0]));
                }
            } else {
                match w.active_pane_id {
                    Some(p) => {
                        let c = choose|c: int| 0 <= c < current.len() && current[c] == p;
                        current.lemma_filter_contains(other_than(pane_id), c);
                    },
                    None => {},
                }
            }
        }
        assert(focus_fits_layout(w2));
        assert(w2.layout.validation() is Ok);
        assert forall|i: int| 0 <= i < after.workspaces.len() implies focus_fits_layout(
            #[trigger] after.workspaces[i],
        ) && after.workspaces[i].layout.validation() is Ok by {
            if i != index {
                assert(after.workspaces[i] == state.workspaces[i]);
            }
        }
        assert forall|j: int| 0 <= j < after.panes.len() implies is_placed(
            after,
            #[trigger] after.panes[j],
        ) by {
            let r = after.panes[j];
            state.panes.lemma_filter_pred(other_pane(pane_id), j);
            assert(state.panes.filter(other_pane(pane_id)).contains(r));
            state.panes.lemma_filter_contains_rev(other_pane(pane_id), r);
            let j0 = choose|j0: int| 0 <= j0 < state.panes.len() && state.panes[j0] == r;
            assert(is_placed(state, state.panes[j0]));
            lemma_found_workspace(state, r.workspace_id);
            let k = workspace_index(state, r.workspace_id);
            if k == index {
                let c = choose|c: int| 0 <= c < current.len() && current[c] == r.id;
                if current.len() == 1 {
                    let d = choose|d: int| 0 <= d < current.len() && current[d] == pane_id;
                    assert(false);
                }
                current.lemma_filter_contains(other_than(pane_id), c);
            } else {
                assert(after.workspaces[k] == state.workspaces[k]);
            }
        }
    }
}

/// Closing a workspace keeps the state consistent.
#[verifier::rlimit(40)]
proof fn lemma_close_workspace_consistent(state: AppView, id: WorkspaceId)
    requires
        consistent(state),
    ensures
        consistent(close_workspace_step(state, id).state),
{
    let after = close_workspace_step(state, id).state;
    if has_workspace(state, id) {
        let index = workspace_index(state, id);
        lemma_found_workspace(state, id);
        let ws = state.workspaces;
        let ids = workspace_ids_of(ws);
        let n = ws.len() as int;
        assert(after.workspaces == ws.remove(index));
        assert forall|i: int| 0 <= i < n - 1 implies #[trigger] after.workspaces[i] == ws[
            if i < index { i } else { i + 1 }
        ] by {}
        assert(workspace_ids_of(after.workspaces) =~= ids.remove(index));
        assert forall|a: int, b: int| 0 <= a < b < n - 1 implies ids.remove(index)[a] != ids.remove(
            index,
        )[b] by {
            let a0 = if a < index { a } else { a + 1 };
            let b0 = if b < index { b } else { b + 1 };
            assert(ids.remove(index)[a] == ids[a0]);
            assert(ids.remove(index)[b] == ids[b0]);
        }
        assert(workspace_ids_of(after.workspaces).no_duplicates());
        crate::daemon_laws::terminal_cap_is_kept(
            state,
            crate::protocol::ClientRequest::CloseWorkspace { workspace_id: id },
            seq![],
            arbitrary(),
            arbitrary(),
        );
        assert forall|i: int| 0 <= i < after.workspaces.len() implies focus_fits_layout(
            #[trigger] after.workspaces[i],
        ) && after.workspaces[i].layout.validation() is Ok by {
            assert(after.workspaces[i] == ws[if i < index { i } else { i + 1 }]);
        }
        match after.active_workspace_id {
            Some(x) => {
                if state.active_workspace_id == Some(id) {
                    let k = if index < n - 1 { index } else { n - 2 };
                    assert(x == after.workspaces[k].id);
                    lemma_workspace_at(after, k);
                } else {
                    let k = workspace_index(state, x);
                    lemma_found_workspace(state, x);
                    let k1 = if k < index { k } else { k - 1 };
                    assert(after.workspaces[k1] == ws[k]);
                    lemma_workspace_at(after, k1);
                }
            },
            None => {},
        }
        assert forall|j: int| 0 <= j < after.panes.len() implies is_placed(
            after,
            #[trigger] after.panes[j],
        ) by {
            let r = after.panes[j];
            state.panes.lemma_filter_pred(outside_workspace(id), j);
            assert(state.panes.filter(outside_workspace(id)).contains(r));
            state.panes.lemma_filter_contains_rev(outside_workspace(id), r);
            let j0 = choose|j0: int| 0 <= j0 < state.panes.len() && state.panes[j0] == r;
            assert(is_placed(state, state.panes[j0]));
            lemma_found_workspace(state, r.workspace_id);
            let k = workspace_index(state, r.workspace_id);
            let k1 = if k < index { k } else { k - 1 };
            assert(after.workspaces[k1] == ws[k]);
            lemma_workspace_at(after, k1);
        }
    }
}


/// A pane `pane_id` has a record, and the record names workspace `id`.
pub open spec fn is_recorded_in(state: AppView, pane_id: PaneId, id: WorkspaceId) -> bool {
    has_pane(state, pane_id) && state.panes[pane_index(state, pane_id)].workspace_id == id
}

/// Every pane of a layout has a record naming that layout's workspace.
#[verifier::opaque]
pub open spec fn layouts_are_recorded(state: AppView) -> bool {
    forall|i: int, p: PaneId|
        0 <= i < state.workspaces.len() && #[trigger] state.workspaces[i].layout.panes().contains(p)
            ==> is_recorded_in(state, p, state.workspaces[i].id)
}

/// Pane identifiers are distinct and every pane of a layout is recorded in its workspace; with
/// `consistent`, each layout holds exactly the panes recorded in its workspace, each once.
pub open spec fn records_match_layouts(state: AppView) -> bool {
    pane_ids_of(state.panes).no_duplicates() && layouts_are_recorded(state)
}

/// Where pane record `j` of a state with distinct pane identifiers is found.
proof fn lemma_pane_at(state: AppView, j: int)
    requires
        pane_ids_of(state.panes).no_duplicates(),
        0 <= j < state.panes.len(),
    ensures
        has_pane(state, state.panes[j].id),
        pane_index(state, state.panes[j].id) == j,
{
    let ids = pane_ids_of(state.panes);
    assert(ids[j] == state.panes[j].id);
    lemma_index_of_unique(ids, j);
}

/// Where a found pane is.
proof fn lemma_found_pane(state: AppView, pane_id: PaneId)
    requires
        has_pane(state, pane_id),
    ensures
        0 <= pane_index(state, pane_id) < state.panes.len(),
        state.panes[pane_index(state, pane_id)].id == pane_id,
{
    lemma_first_index_bounds(pane_ids_of(state.panes), pane_id);
}

/// Keeping some pane records of records with distinct identifiers keeps them distinct.
proof fn lemma_filter_distinct_ids(s: Seq<PaneView>, keep: spec_fn(PaneView) -> bool)
    requires
        pane_ids_of(s).no_duplicates(),
    ensures
        pane_ids_of(s.filter(keep)).no_duplicates(),
    decreases s.len(),
{
    reveal(Seq::filter);
    if s.len() > 0 {
        let rest = s.drop_last();
        assert forall|a: int, b: int| 0 <= a < b < rest.len() implies pane_ids_of(rest)[a] != pane_ids_of(
            rest,
        )[b] by {
            assert(pane_ids_of(rest)[a] == pane_ids_of(s)[a]);
            assert(pane_ids_of(rest)[b] == pane_ids_of(s)[b]);
        }
        lemma_filter_distinct_ids(rest, keep);
        if keep(s.last()) {
            let kept = rest.filter(keep);
            assert(pane_ids_of(kept.push(s.last())) =~= pane_ids_of(kept).push(s.last().id));
            assert forall|a: int, b: int|
                0 <= a < b < pane_ids_of(kept).push(s.last().id).len() implies pane_ids_of(kept).push(
                s.last().id,
            )[a] != pane_ids_of(kept).push(s.last().id)[b] by {
                if b == kept.len() {
                    let e = kept[a];
                    if e.id == s.last().id {
                        assert(kept.contains(e));
                        rest.lemma_filter_contains_rev(keep, e);
                        let c = choose|c: int| 0 <= c < rest.len() && rest[c] == e;
                        assert(pane_ids_of(s)[c] == pane_ids_of(s)[s.len() - 1]);
                    }
                }
            }
        }
    }
}


/// Pane records rewritten in place (same identifiers and workspaces) and layouts that only lose
/// panes keep the records matching the layouts.
proof fn lemma_records_in_place(state: AppView, after: AppView)
    requires
        records_match_layouts(state),
        after.panes.len() == state.panes.len(),
        forall|j: int| 0 <= j < state.panes.len() ==> (#[trigger] after.panes[j]).id == state.panes[j].id
            && after.panes[j].workspace_id == state.panes[j].workspace_id,
        after.workspaces.len() == state.workspaces.len(),
        forall|i: int| 0 <= i < state.workspaces.len() ==> (#[trigger] after.workspaces[i]).id
            == state.workspaces[i].id,
        forall|i: int, p: PaneId|
            0 <= i < after.workspaces.len() && #[trigger] after.workspaces[i].layout.panes().contains(p)
                ==> state.workspaces[i].layout.panes().contains(p),
    ensures
        records_match_layouts(after),
{
    reveal(layouts_are_recorded);
    assert(pane_ids_of(after.panes) =~= pane_ids_of(state.panes));
    assert forall|i: int, p: PaneId|
        0 <= i < after.workspaces.len() && #[trigger] after.workspaces[i].layout.panes().contains(p)
            implies is_recorded_in(after, p, after.workspaces[i].id) by {
        assert(state.workspaces[i].layout.panes().contains(p));
        assert(is_recorded_in(state, p, state.workspaces[i].id));
        lemma_found_pane(state, p);
    }
}

/// One new record under an unused identifier, with layouts that keep their panes or gain that
/// one in the new record's workspace, keeps the records matching the layouts.
proof fn lemma_records_grown(state: AppView, after: AppView, record: PaneView)
    requires
        records_match_layouts(state),
        !pane_ids_of(state.panes).contains(record.id),
        after.panes == state.panes.push(record),
        after.workspaces.len() >= state.workspaces.len(),
        forall|i: int| 0 <= i < state.workspaces.len() ==> (#[trigger] after.workspaces[i]).id
            == state.workspaces[i].id,
        forall|i: int, p: PaneId|
            0 <= i < after.workspaces.len() && #[trigger] after.workspaces[i].layout.panes().contains(p)
                ==> (p == record.id && after.workspaces[i].id == record.workspace_id) || (i
                < state.workspaces.len() && state.workspaces[i].layout.panes().contains(p)),
    ensures
        records_match_layouts(after),
{
    reveal(layouts_are_recorded);
    let ids = pane_ids_of(state.panes);
    assert(pane_ids_of(after.panes) =~= ids + seq![record.id]);
    assert forall|a: int, b: int|
        0 <= a < b < ids.len() + 1 implies (ids + seq![record.id])[a] != (ids + seq![record.id])[b] by {
        if b == ids.len() {
            assert(ids[a] == (ids + seq![record.id])[a]);
            assert(ids.contains(ids[a]));
        }
    }
    assert forall|i: int, p: PaneId|
        0 <= i < after.workspaces.len() && #[trigger] after.workspaces[i].layout.panes().contains(p)
            implies is_recorded_in(after, p, after.workspaces[i].id) by {
        lemma_first_index_concat(ids, seq![record.id], p);
        if p == record.id && after.workspaces[i].id == record.workspace_id {
            assert(seq![record.id][0] == record.id);
            assert(first_index(seq![record.id], record.id) == 0);
        } else {
            assert(state.workspaces[i].layout.panes().contains(p));
            assert(is_recorded_in(state, p, state.workspaces[i].id));
            lemma_first_index_bounds(ids, p);
            assert(after.panes[pane_index(state, p)] == state.panes[pane_index(state, p)]);
        }
    }
}

/// Dropping records, where every pane left in a layout keeps the record naming that layout's
/// workspace, keeps the records matching the layouts.
proof fn lemma_records_filtered(
    state: AppView,
    after: AppView,
    keep: spec_fn(PaneView) -> bool,
)
    requires
        records_match_layouts(state),
        after.panes == state.panes.filter(keep),
        forall|k: int, p: PaneId|
            0 <= k < after.workspaces.len() && #[trigger] after.workspaces[k].layout.panes().contains(p)
                ==> is_recorded_in(state, p, after.workspaces[k].id) && keep(
                state.panes[pane_index(state, p)],
            ),
    ensures
        records_match_layouts(after),
{
    reveal(layouts_are_recorded);
    lemma_filter_distinct_ids(state.panes, keep);
    assert forall|k: int, p: PaneId|
        0 <= k < after.workspaces.len() && #[trigger] after.workspaces[k].layout.panes().contains(p)
            implies is_recorded_in(after, p, after.workspaces[k].id) by {
        let q = pane_index(state, p);
        lemma_found_pane(state, p);
        let r = state.panes[q];
        state.panes.lemma_filter_contains(keep, q);
        let c = choose|c: int| 0 <= c < after.panes.len() && after.panes[c] == r;
        lemma_pane_at(after, c);
    }
}

/// Creating a workspace under a fresh pane identifier keeps the records matching the layouts.
proof fn lemma_records_create_workspace(
    state: AppView,
    name: Seq<char>,
    root: Seq<char>,
    label: Seq<char>,
    new_workspace: WorkspaceId,
    new_pane: PaneId,
)
    requires
        records_match_layouts(state),
        !pane_ids_of(state.panes).contains(new_pane),
    ensures
        records_match_layouts(create_workspace_step(state, name, root, label, new_workspace, new_pane).state),
{
    let after = create_workspace_step(state, name, root, label, new_workspace, new_pane).state;
    if after != state {
        assert((LayoutNode::Pane { pane_id: new_pane }).panes() =~= seq![new_pane]);
        lemma_records_grown(state, after, after.panes.last());
    }
}

/// Creating the pane of an empty workspace under a fresh identifier keeps the records matching
/// the layouts.
proof fn lemma_records_create_pane(state: AppView, id: WorkspaceId, label: Seq<char>, new_pane: PaneId)
    requires
        records_match_layouts(state),
        !pane_ids_of(state.panes).contains(new_pane),
    ensures
        records_match_layouts(create_pane_step(state, id, label, new_pane).state),
{
    let after = create_pane_step(state, id, label, new_pane).state;
    if after != state {
        let index = workspace_index(state, id);
        lemma_found_workspace(state, id);
        assert((LayoutNode::Pane { pane_id: new_pane }).panes() =~= seq![new_pane]);
        assert forall|i: int| 0 <= i < state.workspaces.len() && i != index implies #[trigger] after.workspaces[i]
            == state.workspaces[i] by {}
        lemma_records_grown(state, after, after.panes.last());
    }
}

/// Splitting a pane under a fresh identifier keeps the records matching the layouts.
#[verifier::rlimit(40)]
proof fn lemma_records_split_pane(
    state: AppView,
    id: WorkspaceId,
    target: PaneId,
    label: Seq<char>,
    new_pane: PaneId,
)
    requires
        records_match_layouts(state),
        !pane_ids_of(state.panes).contains(new_pane),
    ensures
        records_match_layouts(split_pane_step(state, id, target, label, new_pane).state),
{
    let after = split_pane_step(state, id, target, label, new_pane).state;
    if after != state {
        let index = workspace_index(state, id);
        lemma_found_workspace(state, id);
        let current = state.workspaces[index].layout.panes();
        managed_layout_keeps_panes(current.push(new_pane));
        assert forall|i: int, p: PaneId|
            0 <= i < after.workspaces.len() && #[trigger] after.workspaces[i].layout.panes().contains(p)
                implies (p == new_pane && after.workspaces[i].id == after.panes.last().workspace_id) || (i
                < state.workspaces.len() && state.workspaces[i].layout.panes().contains(p)) by {
            if i == index && p != new_pane {
                let c = choose|c: int| 0 <= c < current.len() + 1 && current.push(new_pane)[c] == p;
                assert(current[c] == p);
            }
        }
        lemma_records_grown(state, after, after.panes.last());
    }
}

/// Closing a pane keeps the records matching the layouts.
#[verifier::rlimit(40)]
proof fn lemma_records_close_pane(state: AppView, pane_id: PaneId)
    requires
        consistent(state),
        records_match_layouts(state),
    ensures
        records_match_layouts(close_pane_step(state, pane_id).state),
{
    let after = close_pane_step(state, pane_id).state;
    if after != state {
        reveal(layouts_are_recorded);
        let q = pane_index(state, pane_id);
        lemma_found_pane(state, pane_id);
        let id = state.panes[q].workspace_id;
        let index = workspace_index(state, id);
        lemma_found_workspace(state, id);
        let current = state.workspaces[index].layout.panes();
        let remaining = current.filter(other_than(pane_id));
        assert forall|k: int, p: PaneId|
            0 <= k < after.workspaces.len() && #[trigger] after.workspaces[k].layout.panes().contains(p)
                implies is_recorded_in(state, p, after.workspaces[k].id) && other_pane(pane_id)(
                state.panes[pane_index(state, p)],
            ) by {
            if k == index {
                if current.len() == 1 {
                    assert(LayoutNode::Empty.panes().len() == 0);
                } else {
                    managed_layout_keeps_panes(remaining);
                    let c = choose|c: int| 0 <= c < remaining.len() && remaining[c] == p;
                    current.lemma_filter_pred(other_than(pane_id), c);
                    current.lemma_filter_contains_rev(other_than(pane_id), p);
                }
                assert(is_recorded_in(state, p, state.workspaces[k].id));
            } else {
                assert(after.workspaces[k] == state.workspaces[k]);
                assert(is_recorded_in(state, p, state.workspaces[k].id));
                if p == pane_id {
                    lemma_workspace_at(state, k);
                }
            }
            lemma_found_pane(state, p);
        }
        lemma_records_filtered(state, after, other_pane(pane_id));
    }
}

/// Closing a workspace keeps the records matching the layouts.
#[verifier::rlimit(40)]
proof fn lemma_records_close_workspace(state: AppView, id: WorkspaceId)
    requires
        consistent(state),
        records_match_layouts(state),
    ensures
        records_match_layouts(close_workspace_step(state, id).state),
{
    let after = close_workspace_step(state, id).state;
    if after != state {
        reveal(layouts_are_recorded);
        let index = workspace_index(state, id);
        lemma_found_workspace(state, id);
        let ws = state.workspaces;
        assert forall|k: int, p: PaneId|
            0 <= k < after.workspaces.len() && #[trigger] after.workspaces[k].layout.panes().contains(p)
                implies is_recorded_in(state, p, after.workspaces[k].id) && outside_workspace(id)(
                state.panes[pane_index(state, p)],
            ) by {
            let k0 = if k < index { k } else { k + 1 };
            assert(after.workspaces[k] == ws[k0]);
            assert(is_recorded_in(state, p, ws[k0].id));
            if ws[k0].id == id {
                lemma_workspace_at(state, k0);
            }
        }
        lemma_records_filtered(state, after, outside_workspace(id));
    }
}

/// Replacing a layout by one with the same panes keeps the records matching the layouts.
proof fn lemma_records_update_layout(state: AppView, id: WorkspaceId, layout: LayoutNode)
    requires
        consistent(state),
        records_match_layouts(state),
    ensures
        records_match_layouts(update_layout_step(state, id, layout).state),
{
    let after = update_layout_step(state, id, layout).state;
    if after != state {
        let index = workspace_index(state, id);
        lemma_found_workspace(state, id);
        let current = state.workspaces[index].layout.panes();
        validate_accepts_exactly(state.workspaces[index].layout);
        lemma_same_multiset(layout.panes(), current);
        lemma_records_in_place(state, after);
    }
}

/// Renaming, focusing and recording a pane's size or directory keep the records matching the
/// layouts.
proof fn lemma_records_in_place_steps(
    state: AppView,
    id: WorkspaceId,
    name: Seq<char>,
    pane_id: PaneId,
    cols: u16,
    rows: u16,
    cwd: Seq<char>,
)
    requires
        records_match_layouts(state),
    ensures
        records_match_layouts(rename_workspace_step(state, id, name).state),
        records_match_layouts(focus_workspace_step(state, id).state),
        records_match_layouts(focus_pane_step(state, pane_id).state),
        records_match_layouts(resize_step(state, pane_id, cols, rows).state),
        records_match_layouts(report_cwd_step(state, pane_id, cwd).state),
{
    lemma_records_in_place(state, rename_workspace_step(state, id, name).state);
    lemma_records_in_place(state, focus_workspace_step(state, id).state);
    lemma_records_in_place(state, focus_pane_step(state, pane_id).state);
    lemma_records_in_place(state, resize_step(state, pane_id, cols, rows).state);
    lemma_records_in_place(state, report_cwd_step(state, pane_id, cwd).state);
}


/// A layout of a state whose records match its layouts never holds a pane identifier that no
/// record has.
proof fn lemma_unrecorded_is_nowhere(state: AppView, pane_id: PaneId)
    requires
        records_match_layouts(state),
        !pane_ids_of(state.panes).contains(pane_id),
    ensures
        forall|i: int|
            0 <= i < state.workspaces.len() ==> !(#[trigger] state.workspaces[i]).layout.panes().contains(
                pane_id,
            ),
{
    reveal(layouts_are_recorded);
    assert forall|i: int| 0 <= i < state.workspaces.len() implies !(
    #[trigger] state.workspaces[i]).layout.panes().contains(pane_id) by {
        if state.workspaces[i].layout.panes().contains(pane_id) {
            assert(is_recorded_in(state, pane_id, state.workspaces[i].id));
            lemma_first_index_bounds(pane_ids_of(state.panes), pane_id);
        }
    }
}

/// Every request, whether it is carried out or refused, keeps the daemon state consistent (see
/// `consistent`) and its pane records matching its layouts (see `records_match_layouts`),
/// provided the identifiers drawn for a new workspace and pane are not in use.
#[verifier::rlimit(40)]
pub proof fn requests_keep_the_state_consistent(
    state: AppView,
    request: ClientRequest,
    label: Seq<char>,
    new_workspace: WorkspaceId,
    new_pane: PaneId,
)
    requires
        consistent(state),
        records_match_layouts(state),
        ids_are_fresh(state, new_workspace, new_pane),
    ensures
        consistent(step(state, request, label, new_workspace, new_pane).state),
        records_match_layouts(step(state, request, label, new_workspace, new_pane).state),
{
    lemma_unrecorded_is_nowhere(state, new_pane);
    match request {
        ClientRequest::CreateWorkspace { name, root } => {
            lemma_create_workspace_consistent(state, name@, root@, label, new_workspace, new_pane);
            lemma_records_create_workspace(state, name@, root@, label, new_workspace, new_pane);
        },
        ClientRequest::RenameWorkspace { workspace_id, name } => {
            lemma_rename_consistent(state, workspace_id, name@);
            lemma_records_in_place_steps(state, workspace_id, name@, arbitrary(), 1, 1, seq![]);
        },
        ClientRequest::CloseWorkspace { workspace_id } => {
            lemma_close_workspace_consistent(state, workspace_id);
            lemma_records_close_workspace(state, workspace_id);
        },
        ClientRequest::CreatePane { workspace_id } => {
            lemma_create_pane_consistent(state, workspace_id, label, new_pane);
            lemma_records_create_pane(state, workspace_id, label, new_pane);
        },
        ClientRequest::SplitPane { workspace_id, target, .. } => {
            lemma_split_pane_consistent(state, workspace_id, target, label, new_pane);
            lemma_records_split_pane(state, workspace_id, target, label, new_pane);
        },
        ClientRequest::ClosePane { pane_id } => {
            lemma_close_pane_consistent(state, pane_id);
            lemma_records_close_pane(state, pane_id);
        },
        ClientRequest::FocusWorkspace { workspace_id } => {
            lemma_focus_workspace_consistent(state, workspace_id);
            lemma_records_in_place_steps(state, workspace_id, seq![], arbitrary(), 1, 1, seq![]);
        },
        ClientRequest::FocusPane { pane_id } => {
            lemma_focus_pane_consistent(state, pane_id);
            lemma_records_in_place_steps(state, arbitrary(), seq![], pane_id, 1, 1, seq![]);
        },
        ClientRequest::UpdateLayout { workspace_id, layout } => {
            lemma_update_layout_consistent(state, workspace_id, layout);
            lemma_records_update_layout(state, workspace_id, layout);
        },
        ClientRequest::Resize { pane_id, cols, rows } => {
            lemma_pane_record_consistent(state, pane_id, cols, rows, seq![]);
            lemma_records_in_place_steps(state, arbitrary(), seq![], pane_id, cols, rows, seq![]);
        },
        ClientRequest::ReportCwd { pane_id, cwd } => {
            lemma_pane_record_consistent(state, pane_id, 1, 1, cwd@);
            lemma_records_in_place_steps(state, arbitrary(), seq![], pane_id, 1, 1, cwd@);
        },
        _ => {},
    }
}

/// Every request can be handled in a consistent state: closing a pane leaves at most six panes
/// to rearrange, so no row of the new grid is too large.
pub proof fn consistent_states_fit_every_request(state: AppView, request: ClientRequest)
    requires
        consistent(state),
    ensures
        request_fits(state, request),
{
    match request {
        ClientRequest::ClosePane { pane_id } => {
            if has_pane(state, pane_id) {
                let id = state.panes[pane_index(state, pane_id)].workspace_id;
                if has_workspace(state, id) {
                    lemma_found_workspace(state, id);
                    let panes = state.workspaces[workspace_index(state, id)].layout.panes();
                    panes.lemma_filter_len(other_than(pane_id));
                }
            }
        },
        _ => {},
    }
}

/// In a consistent state, closing a pane leaves the focus of every workspace that was focused on
/// another pane where it was.
pub proof fn closing_an_unfocused_pane_keeps_focus(state: AppView, pane_id: PaneId)
    requires
        consistent(state),
    ensures
        forall|i: int|
            0 <= i < state.workspaces.len() && state.workspaces[i].active_pane_id != Some(pane_id) ==> (
            #[trigger] close_pane_step(state, pane_id).state.workspaces[i]).active_pane_id
                == state.workspaces[i].active_pane_id,
{
    let after = close_pane_step(state, pane_id).state;
    if after != state {
        let q = pane_index(state, pane_id);
        lemma_first_index_bounds(pane_ids_of(state.panes), pane_id);
        let id = state.panes[q].workspace_id;
        assert(is_placed(state, state.panes[q]));
        let index = workspace_index(state, id);
        lemma_found_workspace(state, id);
        let w = state.workspaces[index];
        assert(focus_fits_layout(w));
        assert forall|i: int|
            0 <= i < state.workspaces.len() && state.workspaces[i].active_pane_id != Some(pane_id)
                implies (#[trigger] after.workspaces[i]).active_pane_id
                == state.workspaces[i].active_pane_id by {
            if i == index && w.layout.panes().len() == 1 {
                assert(w.layout.panes().contains(pane_id));
                let c = choose|c: int| 0 <= c < 1 && w.layout.panes()[c] == pane_id;
                match w.active_pane_id {
                    Some(p) => {
                        let d = choose|d: int| 0 <= d < 1 && w.layout.panes()[d] == p;
                    },
                    None => {},
                }
            }
        }
    }
}

} // verus!
