use ade::daemon::{
    DEFAULT_COLUMNS, DEFAULT_ROWS, DaemonError, DaemonState, RequestRoute, StateAction,
    route_request, workspace_snapshot,
};
use ade::layout::{LayoutNode, MAX_TERMINALS_PER_WORKSPACE, SplitAxis, SplitDirection, SplitRatio};
use ade::protocol::{AppSnapshot, ClientRequest, PROTOCOL_VERSION, PaneSnapshot};
use ade::text::paths_equal;
use ade::{PaneId, SessionStatus, Workspace, WorkspaceId};

fn create(state: &mut DaemonState, name: &str, root: &str) {
    state
        .handle(
            ClientRequest::CreateWorkspace {
                name: name.to_owned(),
                root: root.to_owned(),
            },
            "pwsh.exe",
        )
        .unwrap();
}

#[test]
fn workspace_and_pane_mutations_preserve_authoritative_snapshot() {
    let mut state = DaemonState::new(AppSnapshot::default());
    let change = state
        .handle(
            ClientRequest::CreateWorkspace {
                name: "one".to_owned(),
                root: r"C:\work".to_owned(),
            },
            "pwsh.exe",
        )
        .unwrap();
    assert!(change.persist);
    let workspace = state.snapshot().workspaces[0].clone();
    let first = workspace.active_pane_id.unwrap();

    state
        .handle(
            ClientRequest::SplitPane {
                workspace_id: workspace.id,
                target: first,
                direction: SplitDirection::Right,
            },
            "pwsh.exe",
        )
        .unwrap();
    assert_eq!(state.snapshot().panes.len(), 2);
    let second = state.snapshot().workspaces[0].active_pane_id.unwrap();

    state
        .handle(ClientRequest::ClosePane { pane_id: second }, "pwsh.exe")
        .unwrap();
    assert_eq!(state.snapshot().panes.len(), 1);
    assert_eq!(state.snapshot().workspaces[0].active_pane_id, Some(first));
}

#[test]
fn persisted_running_panes_restart_as_starting() {
    let mut snapshot = AppSnapshot::default();
    let workspace = Workspace::new("one".to_owned(), r"C:\work".to_owned());
    let pane_id = workspace.active_pane_id.unwrap();
    snapshot.panes.push(PaneSnapshot {
        id: pane_id,
        workspace_id: workspace.id,
        status: SessionStatus::Running,
        cwd: workspace.root_directory.clone(),
        process_label: "pwsh.exe".to_owned(),
        cols: DEFAULT_COLUMNS,
        rows: DEFAULT_ROWS,
    });
    snapshot.workspaces.push(workspace_snapshot(workspace));
    let state = DaemonState::new(snapshot);
    assert_eq!(state.snapshot().panes[0].status, SessionStatus::Starting);
}

#[test]
fn layout_ratio_name_and_cwd_updates_are_persisted_in_state() {
    let mut state = DaemonState::new(AppSnapshot::default());
    create(&mut state, "one", r"C:\work");
    let workspace = state.snapshot().workspaces[0].clone();
    state
        .handle(
            ClientRequest::SplitPane {
                workspace_id: workspace.id,
                target: workspace.active_pane_id.unwrap(),
                direction: SplitDirection::Right,
            },
            "pwsh.exe",
        )
        .unwrap();
    let mut layout = state.snapshot().workspaces[0].layout.clone();
    layout.set_ratio(&[], SplitRatio::new(7, 10)).unwrap();
    state
        .handle(
            ClientRequest::UpdateLayout {
                workspace_id: workspace.id,
                layout,
            },
            "pwsh.exe",
        )
        .unwrap();
    state
        .handle(
            ClientRequest::RenameWorkspace {
                workspace_id: workspace.id,
                name: "renamed".to_owned(),
            },
            "pwsh.exe",
        )
        .unwrap();
    state
        .handle(
            ClientRequest::ReportCwd {
                pane_id: workspace.active_pane_id.unwrap(),
                cwd: r"C:\work\nested".to_owned(),
            },
            "pwsh.exe",
        )
        .unwrap();

    assert_eq!(state.snapshot().workspaces[0].name, "renamed");
    assert_eq!(state.snapshot().panes[0].cwd, r"C:\work\nested");
    assert!(matches!(
        state.snapshot().workspaces[0].layout,
        LayoutNode::Split { ratio, .. }
            if (ratio.numerator as f32 / ratio.denominator as f32 - 0.7).abs() < f32::EPSILON
    ));
}

#[test]
fn closing_workspace_removes_its_panes_and_selects_a_remaining_workspace() {
    let mut state = DaemonState::new(AppSnapshot::default());
    for name in ["one", "two"] {
        create(&mut state, name, &format!(r"C:\{name}"));
    }
    let closed = state.snapshot().workspaces[1].clone();
    let change = state
        .handle(
            ClientRequest::CloseWorkspace {
                workspace_id: closed.id,
            },
            "pwsh.exe",
        )
        .unwrap();

    assert_eq!(
        change.action,
        StateAction::ClosePanes(closed.layout.pane_ids())
    );
    assert_eq!(state.snapshot().workspaces.len(), 1);
    assert_eq!(state.snapshot().panes.len(), 1);
    assert_eq!(
        state.snapshot().active_workspace_id,
        Some(state.snapshot().workspaces[0].id)
    );
}

#[test]
fn final_pane_can_be_closed_and_recreated_without_removing_workspace() {
    let mut state = DaemonState::new(AppSnapshot::default());
    create(&mut state, "one", r"C:\work");
    let workspace_id = state.snapshot().workspaces[0].id;
    let pane_id = state.snapshot().workspaces[0].active_pane_id.unwrap();

    let close = state
        .handle(ClientRequest::ClosePane { pane_id }, "pwsh.exe")
        .unwrap();
    assert_eq!(close.action, StateAction::ClosePane(pane_id));
    assert!(close.persist);
    assert_eq!(state.snapshot().workspaces.len(), 1);
    assert!(state.snapshot().panes.is_empty());
    assert!(matches!(
        state.snapshot().workspaces[0].layout,
        LayoutNode::Empty
    ));
    assert_eq!(state.snapshot().workspaces[0].active_pane_id, None);

    let repeated_close = state
        .handle(ClientRequest::ClosePane { pane_id }, "pwsh.exe")
        .unwrap();
    assert_eq!(repeated_close.action, StateAction::NoAction);

    let create = state
        .handle(ClientRequest::CreatePane { workspace_id }, "pwsh.exe")
        .unwrap();
    assert!(matches!(create.action, StateAction::SpawnPane(_)));
    assert_eq!(state.snapshot().panes.len(), 1);
    assert!(state.snapshot().workspaces[0].active_pane_id.is_some());
}

#[test]
fn workspace_reflows_panes_and_rejects_a_seventh_terminal() {
    let mut state = DaemonState::new(AppSnapshot::default());
    create(&mut state, "one", r"C:\work");
    let workspace_id = state.snapshot().workspaces[0].id;

    for _ in 1..MAX_TERMINALS_PER_WORKSPACE {
        let target = state.snapshot().workspaces[0].active_pane_id.unwrap();
        state
            .handle(
                ClientRequest::SplitPane {
                    workspace_id,
                    target,
                    direction: SplitDirection::Down,
                },
                "pwsh.exe",
            )
            .unwrap();
    }

    let workspace = &state.snapshot().workspaces[0];
    assert_eq!(
        workspace.layout.pane_ids().len(),
        MAX_TERMINALS_PER_WORKSPACE
    );
    assert!(matches!(
        workspace.layout,
        LayoutNode::Split {
            axis: SplitAxis::Rows,
            ..
        }
    ));

    let target = workspace.active_pane_id.unwrap();
    let error = state
        .handle(
            ClientRequest::SplitPane {
                workspace_id,
                target,
                direction: SplitDirection::Right,
            },
            "pwsh.exe",
        )
        .unwrap_err();
    assert!(matches!(error, DaemonError::TerminalLimitReached { .. }));
    assert_eq!(state.snapshot().panes.len(), MAX_TERMINALS_PER_WORKSPACE);

    state
        .handle(ClientRequest::ClosePane { pane_id: target }, "pwsh.exe")
        .unwrap();
    assert_eq!(state.snapshot().workspaces[0].layout.pane_ids().len(), 5);
}

#[test]
fn exited_panes_do_not_dispatch_to_closed_runtime_channels() {
    let mut state = DaemonState::new(AppSnapshot::default());
    create(&mut state, "one", r"C:\work");
    let pane_id = state.snapshot().panes[0].id;
    state
        .set_pane_status(pane_id, SessionStatus::Exited { exit_code: 2 })
        .unwrap();

    let input = state
        .handle(
            ClientRequest::Input {
                pane_id,
                data: b"ignored".to_vec(),
            },
            "pwsh.exe",
        )
        .unwrap();
    assert_eq!(input.action, StateAction::NoAction);

    let resize = state
        .handle(
            ClientRequest::Resize {
                pane_id,
                cols: 120,
                rows: 40,
            },
            "pwsh.exe",
        )
        .unwrap();
    assert_eq!(resize.action, StateAction::NoAction);
    assert!(resize.persist);
    assert_eq!(state.snapshot().panes[0].cols, 120);
    assert_eq!(state.snapshot().panes[0].rows, 40);

    let close = state
        .handle(ClientRequest::ClosePane { pane_id }, "pwsh.exe")
        .unwrap();
    assert_eq!(close.action, StateAction::ClosePane(pane_id));
    assert!(state.snapshot().panes.is_empty());
    assert!(matches!(
        state.snapshot().workspaces[0].layout,
        LayoutNode::Empty
    ));

    let stale_input = state
        .handle(
            ClientRequest::Input {
                pane_id,
                data: b"ignored".to_vec(),
            },
            "pwsh.exe",
        )
        .unwrap();
    assert_eq!(stale_input.action, StateAction::NoAction);

    let stale_resize = state
        .handle(
            ClientRequest::Resize {
                pane_id,
                cols: 120,
                rows: 40,
            },
            "pwsh.exe",
        )
        .unwrap();
    assert_eq!(stale_resize.action, StateAction::NoAction);
    assert!(!stale_resize.persist);
}

#[test]
fn blank_workspace_names_are_refused_without_change() {
    let mut state = DaemonState::new(AppSnapshot::default());
    let error = state
        .handle(
            ClientRequest::CreateWorkspace {
                name: "  \t".to_owned(),
                root: r"C:\work".to_owned(),
            },
            "pwsh.exe",
        )
        .unwrap_err();
    assert_eq!(error, DaemonError::EmptyWorkspaceName);
    assert!(state.snapshot().workspaces.is_empty());
    assert!(state.snapshot().panes.is_empty());
}

#[test]
fn unknown_targets_are_reported() {
    let mut state = DaemonState::new(AppSnapshot::default());
    let workspace_id = WorkspaceId::from_u128(42);
    let pane_id = PaneId::from_u128(43);
    assert_eq!(
        state
            .handle(ClientRequest::FocusWorkspace { workspace_id }, "pwsh.exe")
            .unwrap_err(),
        DaemonError::WorkspaceNotFound(workspace_id)
    );
    assert_eq!(
        state
            .handle(ClientRequest::FocusPane { pane_id }, "pwsh.exe")
            .unwrap_err(),
        DaemonError::PaneNotFound(pane_id)
    );
    assert_eq!(state.pane(pane_id).unwrap_err(), DaemonError::PaneNotFound(pane_id));
}

#[test]
fn input_reaches_a_live_pane_and_cwd_changes_are_reported_once() {
    let mut state = DaemonState::new(AppSnapshot::default());
    create(&mut state, "one", r"C:\work");
    let pane_id = state.snapshot().panes[0].id;
    let input = state
        .handle(
            ClientRequest::Input {
                pane_id,
                data: b"dir\r".to_vec(),
            },
            "pwsh.exe",
        )
        .unwrap();
    assert_eq!(
        input.action,
        StateAction::Input {
            pane_id,
            data: b"dir\r".to_vec()
        }
    );
    assert!(!input.persist);
    assert_eq!(state.set_pane_cwd(pane_id, r"C:\other".to_owned()), Ok(true));
    assert_eq!(state.set_pane_cwd(pane_id, r"C:\other".to_owned()), Ok(false));
}

#[test]
fn reported_directories_are_compared_as_paths() {
    let mut state = DaemonState::new(AppSnapshot::default());
    create(&mut state, "one", r"C:\work");
    let pane_id = state.snapshot().panes[0].id;
    assert_eq!(state.set_pane_cwd(pane_id, r"C:\other".to_owned()), Ok(true));
    assert_eq!(state.set_pane_cwd(pane_id, r"C:\other\".to_owned()), Ok(false));
    assert_eq!(state.set_pane_cwd(pane_id, "c:/other".to_owned()), Ok(false));
    assert_eq!(state.set_pane_cwd(pane_id, r"C:\.\other".to_owned()), Ok(false));
    assert_eq!(state.snapshot().panes[0].cwd, r"C:\other");
    assert_eq!(state.set_pane_cwd(pane_id, r"C:\Other".to_owned()), Ok(true));
    assert_eq!(state.set_pane_cwd(pane_id, r"C:other".to_owned()), Ok(true));
    assert_eq!(state.set_pane_cwd(pane_id, r".\a".to_owned()), Ok(true));
    assert_eq!(state.set_pane_cwd(pane_id, "a".to_owned()), Ok(true));
}

#[test]
fn shutdown_asks_for_shutdown_and_changes_nothing() {
    let mut state = DaemonState::new(AppSnapshot::default());
    create(&mut state, "one", r"C:\work");
    let before = state.snapshot().clone();
    let change = state.handle(ClientRequest::Shutdown, "pwsh.exe").unwrap();
    assert_eq!(change.action, StateAction::Shutdown);
    assert!(!change.persist);
    assert_eq!(state.snapshot(), &before);
}

#[test]
fn request_fits_accepts_ordinary_requests() {
    let mut state = DaemonState::new(AppSnapshot::default());
    create(&mut state, "one", r"C:\work");
    let pane_id = state.snapshot().panes[0].id;
    assert!(state.request_fits(&ClientRequest::ClosePane { pane_id }));
    assert!(state.request_fits(&ClientRequest::GetSnapshot));
}

#[test]
fn persist_and_publish_flags_always_agree() {
    let mut state = DaemonState::new(AppSnapshot::default());
    create(&mut state, "one", r"C:\work");
    let pane_id = state.snapshot().panes[0].id;
    let workspace_id = state.snapshot().workspaces[0].id;
    for request in [
        ClientRequest::GetSnapshot,
        ClientRequest::Attach,
        ClientRequest::FocusWorkspace { workspace_id },
        ClientRequest::FocusPane { pane_id },
        ClientRequest::Input {
            pane_id,
            data: b"x".to_vec(),
        },
        ClientRequest::Resize {
            pane_id,
            cols: 100,
            rows: 30,
        },
    ] {
        let change = state.handle(request, "pwsh.exe").unwrap();
        assert_eq!(change.persist, change.publish_snapshot);
    }
}

#[test]
fn requests_are_routed_by_version_and_kind() {
    assert_eq!(
        route_request(PROTOCOL_VERSION, &ClientRequest::Attach),
        RequestRoute::Attach
    );
    assert_eq!(
        route_request(PROTOCOL_VERSION, &ClientRequest::GetSnapshot),
        RequestRoute::Snapshot
    );
    assert_eq!(
        route_request(PROTOCOL_VERSION, &ClientRequest::Shutdown),
        RequestRoute::Apply
    );
    assert_eq!(
        route_request(2, &ClientRequest::Attach),
        RequestRoute::Refuse(DaemonError::ProtocolVersion {
            received: 2,
            expected: PROTOCOL_VERSION
        })
    );
}

fn assert_consistent(state: &DaemonState) {
    let snapshot = state.snapshot();
    if let Some(active) = snapshot.active_workspace_id {
        assert!(snapshot.workspaces.iter().any(|w| w.id == active));
    }
    for workspace in &snapshot.workspaces {
        assert_eq!(workspace.layout.validate(), Ok(()));
        let mut in_layout = workspace.layout.pane_ids();
        assert!(in_layout.len() <= MAX_TERMINALS_PER_WORKSPACE);
        match workspace.active_pane_id {
            Some(pane) => assert!(in_layout.contains(&pane)),
            None => assert!(in_layout.is_empty()),
        }
        let mut recorded: Vec<PaneId> = snapshot
            .panes
            .iter()
            .filter(|pane| pane.workspace_id == workspace.id)
            .map(|pane| pane.id)
            .collect();
        in_layout.sort_by_key(|id| id.as_u128());
        recorded.sort_by_key(|id| id.as_u128());
        assert_eq!(in_layout, recorded);
    }
    for pane in &snapshot.panes {
        assert!(snapshot.workspaces.iter().any(|w| w.id == pane.workspace_id));
        assert_eq!(snapshot.panes.iter().filter(|other| other.id == pane.id).count(), 1);
    }
}

#[test]
fn every_request_keeps_the_state_consistent() {
    let mut state = DaemonState::new(AppSnapshot::default());
    assert_consistent(&state);
    create(&mut state, "one", r"C:\one");
    create(&mut state, "two", r"C:\two");
    assert_consistent(&state);
    let one = state.snapshot().workspaces[0].id;
    let two = state.snapshot().workspaces[1].id;
    let first = state.snapshot().workspaces[0].active_pane_id.unwrap();
    for _ in 0..4 {
        let target = state.snapshot().workspaces[0].active_pane_id.unwrap();
        state
            .handle(
                ClientRequest::SplitPane {
                    workspace_id: one,
                    target,
                    direction: SplitDirection::Down,
                },
                "pwsh.exe",
            )
            .unwrap();
        assert_consistent(&state);
    }
    let other_first = state.snapshot().workspaces[1].active_pane_id.unwrap();
    assert!(state
        .handle(
            ClientRequest::SplitPane {
                workspace_id: one,
                target: other_first,
                direction: SplitDirection::Right,
            },
            "pwsh.exe",
        )
        .is_err());
    assert_consistent(&state);
    state.handle(ClientRequest::FocusPane { pane_id: first }, "pwsh.exe").unwrap();
    state.handle(ClientRequest::ClosePane { pane_id: first }, "pwsh.exe").unwrap();
    assert_consistent(&state);
    state.handle(ClientRequest::ClosePane { pane_id: other_first }, "pwsh.exe").unwrap();
    assert_consistent(&state);
    assert_eq!(state.snapshot().workspaces[1].active_pane_id, None);
    state.handle(ClientRequest::CreatePane { workspace_id: two }, "pwsh.exe").unwrap();
    assert_consistent(&state);
    state.handle(ClientRequest::FocusWorkspace { workspace_id: one }, "pwsh.exe").unwrap();
    state.handle(ClientRequest::CloseWorkspace { workspace_id: one }, "pwsh.exe").unwrap();
    assert_consistent(&state);
    assert_eq!(state.snapshot().active_workspace_id, Some(two));
}

#[test]
fn windows_paths_compare_by_component() {
    assert!(paths_equal(r"C:\work\nested", r"c:/work//nested\"));
    assert!(paths_equal(r"C:\work\.\nested", r"C:\work\nested"));
    assert!(paths_equal(r".\a", r"./a"));
    assert!(!paths_equal(r".\a", "a"));
    assert!(!paths_equal(r"C:\work", r"C:work"));
    assert!(!paths_equal(r"C:\work", r"D:\work"));
    assert!(!paths_equal(r"C:\work\..", r"C:\"));
    assert!(paths_equal("", ""));
}
