use ade::daemon::{POWERSHELL_PROMPT_HOOK, pane_command};
use ade::hub::OutputHub;
use ade::keys::{
    KeyModifiers, TerminalKey, cycle_index, encode_key, move_pane_focus, paste_text,
};
use ade::protocol::{AppSnapshot, ServerEvent};
use ade::PaneId;

const CTRL: KeyModifiers = KeyModifiers {
    ctrl: true,
    shift: false,
    alt: false,
};
const NONE: KeyModifiers = KeyModifiers {
    ctrl: false,
    shift: false,
    alt: false,
};

fn letter(c: char) -> TerminalKey {
    TerminalKey::Letter(c as u8 - b'A')
}

#[test]
fn plain_ctrl_letter_keys_encode_for_terminal_apps() {
    assert_eq!(encode_key(letter('A'), CTRL, false), Some(vec![0x01]));
    assert_eq!(encode_key(letter('D'), CTRL, false), Some(vec![0x04]));
    assert_eq!(encode_key(letter('P'), CTRL, false), Some(vec![0x10]));
}

#[test]
fn modified_arrows_carry_the_xterm_parameter() {
    let shift = KeyModifiers {
        ctrl: false,
        shift: true,
        alt: false,
    };
    let ctrl_alt = KeyModifiers {
        ctrl: true,
        shift: true,
        alt: true,
    };
    assert_eq!(
        encode_key(TerminalKey::ArrowUp, shift, false),
        Some(b"\x1b[1;2A".to_vec())
    );
    assert_eq!(
        encode_key(TerminalKey::ArrowLeft, ctrl_alt, false),
        Some(b"\x1b[1;8D".to_vec())
    );
    assert_eq!(
        encode_key(TerminalKey::ArrowUp, CTRL, false),
        Some(b"\x1b[1;5A".to_vec())
    );
    assert_eq!(encode_key(TerminalKey::Enter, CTRL, false), None);
}

#[test]
fn plain_keys_follow_the_cursor_mode() {
    assert_eq!(encode_key(TerminalKey::ArrowUp, NONE, false), Some(b"\x1b[A".to_vec()));
    assert_eq!(encode_key(TerminalKey::ArrowUp, NONE, true), Some(b"\x1bOA".to_vec()));
    assert_eq!(encode_key(TerminalKey::Enter, NONE, false), Some(b"\r".to_vec()));
    let shift = KeyModifiers {
        ctrl: false,
        shift: true,
        alt: false,
    };
    assert_eq!(encode_key(TerminalKey::Tab, shift, false), Some(b"\x1b[Z".to_vec()));
    assert_eq!(encode_key(TerminalKey::Function(1), NONE, false), Some(b"\x1bOP".to_vec()));
    assert_eq!(encode_key(TerminalKey::Function(5), NONE, false), Some(b"\x1b[15~".to_vec()));
    assert_eq!(encode_key(TerminalKey::Function(10), NONE, false), Some(b"\x1b[21~".to_vec()));
    assert_eq!(encode_key(TerminalKey::Function(12), NONE, false), Some(b"\x1b[24~".to_vec()));
    assert_eq!(encode_key(TerminalKey::Delete, NONE, false), Some(b"\x1b[3~".to_vec()));
    assert_eq!(encode_key(letter('Q'), NONE, false), None);
    assert_eq!(encode_key(TerminalKey::Other, NONE, false), None);
}

#[test]
fn pastes_are_normalised_and_bracketed_on_request() {
    assert_eq!(paste_text("a\r\nb\0c", false), "a\nbc");
    assert_eq!(paste_text("x\r", true), "\x1b[200~x\r\x1b[201~");
}

#[test]
fn focus_cycles_through_panes_and_workspaces() {
    let panes = vec![PaneId::from_u128(1), PaneId::from_u128(2), PaneId::from_u128(3)];
    assert_eq!(move_pane_focus(&panes, Some(panes[2]), true), Some(panes[0]));
    assert_eq!(move_pane_focus(&panes, Some(panes[0]), false), Some(panes[2]));
    assert_eq!(move_pane_focus(&panes, Some(PaneId::from_u128(9)), true), None);
    assert_eq!(move_pane_focus(&Vec::new(), Some(panes[0]), true), None);
    assert_eq!(cycle_index(0, 3, false), 2);
    assert_eq!(cycle_index(2, 3, true), 0);
}

#[test]
fn powershell_gets_the_prompt_hook() {
    let command = pane_command(r"C:\pwsh\PWSH.EXE".to_owned(), "PWSH.EXE", r"C:\work".to_owned());
    assert_eq!(
        command.arguments,
        vec![
            "-NoExit".to_owned(),
            "-Command".to_owned(),
            POWERSHELL_PROMPT_HOOK.to_owned()
        ]
    );
    let command = pane_command(r"C:\Windows\cmd.exe".to_owned(), "cmd.exe", r"C:\work".to_owned());
    assert!(command.arguments.is_empty());
    assert_eq!(command.current_directory, r"C:\work");
}

#[test]
fn replacing_attached_client_keeps_broadcasts_on_new_subscriber() {
    let mut output = OutputHub::new();
    let pane_id = PaneId::new();
    output.append(pane_id, b"buffered");

    let (first_id, replay) = output.replay_for_attach(AppSnapshot::default());
    assert_eq!(replay.len(), 2);
    output.activate(first_id);

    let (second_id, _) = output.replay_for_attach(AppSnapshot::default());
    output.activate(second_id);
    output.detach(first_id);

    assert_ne!(first_id, second_id);
    assert_eq!(output.subscriber(), Some(second_id));
}

#[test]
fn replay_sends_the_snapshot_then_kept_output() {
    let mut output = OutputHub::new();
    let first = PaneId::from_u128(1);
    let second = PaneId::from_u128(2);
    let event = output.append(first, b"one");
    assert!(matches!(event, ServerEvent::TerminalOutput { pane_id, ref data } if pane_id == first && data == b"one"));
    output.append(second, b"");
    output.append(first, b" two");
    let (id, events) = output.replay_for_attach(AppSnapshot::default());
    assert_eq!(id, 1);
    assert_eq!(events.len(), 2);
    assert!(matches!(events[0], ServerEvent::Attached { .. }));
    assert!(matches!(&events[1], ServerEvent::TerminalOutput { pane_id, data } if *pane_id == first && data == b"one two"));
    output.detach(id);
    assert_eq!(output.subscriber(), None);
}

#[test]
fn closed_panes_lose_their_kept_output() {
    let mut output = OutputHub::new();
    let first = PaneId::from_u128(1);
    let second = PaneId::from_u128(2);
    output.append(first, b"one");
    output.append(second, b"two");
    output.remove_buffer(first);
    output.remove_buffer(PaneId::from_u128(3));
    let (_, events) = output.replay_for_attach(AppSnapshot::default());
    assert_eq!(events.len(), 2);
    assert!(matches!(&events[1], ServerEvent::TerminalOutput { pane_id, data } if *pane_id == second && data == b"two"));
}

#[test]
fn kept_output_is_the_last_eight_mebibytes_of_all_output() {
    let limit = ade::osc::OUTPUT_LIMIT;
    let pane = PaneId::from_u128(7);
    let mut split = OutputHub::new();
    let mut whole = OutputHub::new();
    let mut all = Vec::new();
    for (index, chunk) in [limit / 2, limit / 2 + 3, 5].iter().enumerate() {
        let bytes = vec![b'a' + index as u8; *chunk];
        split.append(pane, &bytes);
        all.extend_from_slice(&bytes);
    }
    whole.append(pane, &all);
    let kept = |hub: &mut OutputHub| {
        let (_, events) = hub.replay_for_attach(AppSnapshot::default());
        match &events[1] {
            ServerEvent::TerminalOutput { data, .. } => data.clone(),
            _ => panic!("no output replayed"),
        }
    };
    let from_split = kept(&mut split);
    assert_eq!(from_split.len(), limit);
    assert_eq!(from_split, all[all.len() - limit..].to_vec());
    assert_eq!(from_split, kept(&mut whole));
}
