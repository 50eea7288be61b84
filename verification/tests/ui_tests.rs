use std::time::Duration;

use ade::ui::{
    AgentKind, CellPosition, PaletteGroup, PaneActivity, SettingsSection, TerminalSelection,
    UPDATE_IDLE_NANOS, agent_text_matches_codex, agent_text_matches_opencode, compact_header_path,
    indexed_rgb, SplitIntent, active_workspace_index, split_intent,
    compact_command_suggestion, compact_path, compact_text, deferred_update_delay, mix_u32,
    ordered_selection, palette_matches, pane_agent_kind, pluralize, quoted_terminal_path,
    terminal_limit_reached, workspace_hover_summary,
};
use ade::layout::SplitDirection;
use ade::protocol::ClientRequest;
use ade::{PaneId, SessionStatus, WorkspaceId};

#[test]
fn reverse_terminal_selection_is_normalized() {
    let selection = TerminalSelection {
        start: CellPosition { row: 2, column: 4 },
        end: CellPosition { row: 1, column: 3 },
    };
    let (start, end) = ordered_selection(selection, 80);
    assert_eq!((start.row, start.column), (1, 3));
    assert_eq!((end.row, end.column), (2, 4));
}

#[test]
fn forward_selection_keeps_its_order() {
    let selection = TerminalSelection {
        start: CellPosition { row: 0, column: 79 },
        end: CellPosition { row: 1, column: 0 },
    };
    let (start, end) = ordered_selection(selection, 80);
    assert_eq!((start.row, start.column), (0, 79));
    assert_eq!((end.row, end.column), (1, 0));
}

#[test]
fn deferred_update_waits_for_five_idle_minutes() {
    let last_activity: u128 = 1_000;
    assert_eq!(
        deferred_update_delay(last_activity, last_activity + Duration::from_secs(60).as_nanos()),
        Some(Duration::from_secs(240).as_nanos())
    );
    assert_eq!(
        deferred_update_delay(last_activity, last_activity + UPDATE_IDLE_NANOS),
        None
    );
}

#[test]
fn deferred_update_treats_a_clock_before_the_activity_as_no_idle_time() {
    assert_eq!(deferred_update_delay(500, 100), Some(UPDATE_IDLE_NANOS));
    assert_eq!(UPDATE_IDLE_NANOS, Duration::from_secs(300).as_nanos());
}

#[test]
fn terminal_limit_popup_starts_at_six_terminals() {
    assert!(!terminal_limit_reached(5));
    assert!(terminal_limit_reached(6));
    assert!(terminal_limit_reached(7));
}

#[test]
fn long_recent_commands_are_compacted_for_the_suggestion_row() {
    assert_eq!(
        compact_command_suggestion("  cargo   test --workspace  ", 15),
        "cargo test --w…"
    );
    assert_eq!(compact_command_suggestion("git status", 20), "git status");
}

#[test]
fn command_suggestion_of_zero_width_is_only_the_ellipsis() {
    assert_eq!(compact_command_suggestion("ls", 0), "…");
    assert_eq!(compact_command_suggestion(" \t ", 0), "");
}

#[test]
fn compact_text_preserves_short_names_and_truncates_long_ones() {
    assert_eq!(compact_text("workspace", 12), "workspace");
    assert_eq!(compact_text("a very long workspace", 12), "a very lo...");
}

#[test]
fn compact_text_below_three_characters_keeps_only_dots() {
    assert_eq!(compact_text("abcdef", 2), "...");
}

#[test]
fn command_palette_search_is_case_insensitive_and_trimmed() {
    assert!(palette_matches("New Workspace", " workspace "));
    assert!(palette_matches("Split Pane Right", "SPLIT"));
    assert!(!palette_matches("Close Workspace", "rename"));
    assert!(palette_matches("Close Workspace", ""));
}

#[test]
fn long_paths_keep_their_last_characters() {
    let short = r"C:\work\project";
    assert_eq!(compact_path(short), short);
    let long = r"C:\Users\somebody\source\repositories\terminal-workspace";
    let compact = compact_path(long);
    assert_eq!(compact.chars().count(), 30);
    assert!(compact.starts_with('…'));
    assert!(long.ends_with(&compact[compact.char_indices().nth(1).unwrap().0..]));
}

#[test]
fn dropped_paths_are_quoted() {
    assert_eq!(quoted_terminal_path(r"C:\my files"), "\"C:\\my files\"");
}

#[test]
fn terminal_is_pluralized_unless_there_is_one() {
    assert_eq!(pluralize("terminal", 1), "terminal");
    assert_eq!(pluralize("terminal", 0), "terminals");
    assert_eq!(pluralize("terminal", 2), "terminals");
    assert_eq!(pluralize("agent", 2), "agent");
}

#[test]
fn agent_labels_are_recognised() {
    assert!(agent_text_matches_opencode("opencode"));
    assert!(agent_text_matches_opencode("run open code now"));
    assert!(!agent_text_matches_opencode("pwsh.exe"));
    assert!(agent_text_matches_codex("codex.exe"));
    assert!(agent_text_matches_codex("openai codex"));
    assert!(!agent_text_matches_codex("mycodex"));
    assert_eq!(pane_agent_kind("Codex.EXE"), Some(AgentKind::Codex));
    assert_eq!(pane_agent_kind("OpenCode"), Some(AgentKind::OpenCode));
    assert_eq!(pane_agent_kind("pwsh.exe"), None);
}

fn activity(label: &str, status: SessionStatus) -> PaneActivity {
    PaneActivity {
        status,
        process_label: label.to_owned(),
    }
}

#[test]
fn workspace_hover_summary_counts_active_agent_terminals() {
    let panes = vec![
        activity("codex.exe", SessionStatus::Running),
        activity("opencode", SessionStatus::Starting),
        activity("pwsh.exe", SessionStatus::Running),
        activity("codex.exe", SessionStatus::Exited { exit_code: 0 }),
    ];
    let summary = workspace_hover_summary(&panes);

    assert_eq!(summary.active_terminals, 3);
    assert_eq!(summary.codex_agents, 1);
    assert_eq!(summary.opencode_agents, 1);
}

#[test]
fn workspace_hover_summary_ignores_stale_terminal_text() {
    let panes = vec![
        activity("pwsh.exe", SessionStatus::Running),
        activity("pwsh.exe", SessionStatus::Running),
    ];
    let summary = workspace_hover_summary(&panes);

    assert_eq!(summary.active_terminals, 2);
    assert_eq!(summary.codex_agents, 0);
    assert_eq!(summary.opencode_agents, 0);
}

#[test]
fn labels_name_their_groups_and_sections() {
    assert_eq!(PaletteGroup::Actions.label(), "Actions");
    assert_eq!(PaletteGroup::Navigation.label(), "Navigation");
    assert_eq!(SettingsSection::General.label(), "General");
    assert_eq!(SettingsSection::Advanced.label(), "Advanced");
}

#[test]
fn mixing_scrambles_bits_as_the_finaliser_does() {
    assert_eq!(mix_u32(0), 0);
    assert_eq!(mix_u32(1), 1_753_845_952);
    assert_eq!(mix_u32(12345), 2_435_775_735);
}

#[test]
fn palette_indexes_map_to_theme_cube_and_grey_colours() {
    assert_eq!(indexed_rgb(1), (205, 73, 69));
    assert_eq!(indexed_rgb(15), (249, 250, 247));
    assert_eq!(indexed_rgb(16), (0, 0, 0));
    assert_eq!(indexed_rgb(21), (0, 0, 255));
    assert_eq!(indexed_rgb(196), (255, 0, 0));
    assert_eq!(indexed_rgb(231), (255, 255, 255));
    assert_eq!(indexed_rgb(232), (8, 8, 8));
    assert_eq!(indexed_rgb(255), (238, 238, 238));
}

#[test]
fn header_paths_shorten_home_and_keep_the_tail() {
    assert_eq!(
        compact_header_path(r"C:\Users\Ada\code", Some(r"c:\users\ada"), 40),
        r"~\code"
    );
    assert_eq!(compact_header_path(r"D:\work", Some(r"C:\Users\Ada"), 40), r"D:\work");
    assert_eq!(compact_header_path(r"D:\a\long\path", None, 4), r"D:\a");
    assert_eq!(compact_header_path(r"D:\a\long\path", None, 8), "…\\g\\path");
}

#[test]
fn split_requests_respect_the_terminal_cap() {
    let workspace_id = WorkspaceId::from_u128(1);
    let target = PaneId::from_u128(2);
    assert_eq!(
        split_intent(workspace_id, 6, Some(target), SplitDirection::Right),
        SplitIntent::ShowLimit
    );
    assert_eq!(
        split_intent(workspace_id, 2, Some(target), SplitDirection::Down),
        SplitIntent::Request(ClientRequest::SplitPane {
            workspace_id,
            target,
            direction: SplitDirection::Down
        })
    );
    assert_eq!(
        split_intent(workspace_id, 0, None, SplitDirection::Down),
        SplitIntent::Request(ClientRequest::CreatePane { workspace_id })
    );
}

#[test]
fn the_snapshot_chooses_the_shown_workspace() {
    let ids = vec![WorkspaceId::from_u128(1), WorkspaceId::from_u128(2)];
    assert_eq!(active_workspace_index(&ids, Some(ids[1])), 1);
    assert_eq!(active_workspace_index(&ids, Some(WorkspaceId::from_u128(9))), 0);
    assert_eq!(active_workspace_index(&ids, None), 0);
    assert_eq!(active_workspace_index(&Vec::new(), None), 0);
}
