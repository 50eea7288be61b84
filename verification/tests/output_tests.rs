use ade::file_url::{file_url_to_path, percent_decode};
use ade::osc::{
    CwdTracker, OSC_BUFFER_LIMIT, OUTPUT_LIMIT, append_output, extract_osc7_cwd, find_bytes,
    partial_sequence_suffix, rfind_bytes,
};
use ade::terminal_output::{
    RECENT_COMMAND_LIMIT, capture_recent_commands, command_from_decoded, command_from_payload,
    frame_output, take_clipboard_writes,
};

#[test]
fn cwd_tracker_handles_split_sequences_and_uses_latest_path() {
    let mut tracker = CwdTracker::new();
    assert_eq!(tracker.process(b"before\x1b]7;file:///D:/partial"), None);
    assert_eq!(
        tracker.process(b"/path\x07middle\x1b]7;file:///D:/NimsWorkspace/my-ADE\x1b\\after"),
        Some(r"D:\NimsWorkspace\my-ADE".to_owned())
    );
}

#[test]
fn cwd_tracker_forgets_a_report_once_it_was_read() {
    let mut tracker = CwdTracker::new();
    assert_eq!(
        tracker.process(b"\x1b]7;file:///C:/a\x07"),
        Some(r"C:\a".to_owned())
    );
    assert_eq!(tracker.process(b"plain output"), None);
}

#[test]
fn cwd_tracker_keeps_only_the_last_bytes() {
    let mut tracker = CwdTracker::new();
    let mut chunk = b"\x1b]7;file:///C:/old".to_vec();
    chunk.extend(std::iter::repeat_n(b'x', OSC_BUFFER_LIMIT));
    assert_eq!(tracker.process(&chunk), None);
    assert_eq!(tracker.process(b"\x07"), None);
}

#[test]
fn osc7_reports_decode_percent_escapes_and_hosts() {
    assert_eq!(
        extract_osc7_cwd(b"\x1b]7;file:///C:/My%20Files\x07"),
        Some(r"C:\My Files".to_owned())
    );
    assert_eq!(
        extract_osc7_cwd(b"\x1b]7;file://server/share/dir\x1b\\"),
        Some(r"\\server\share\dir".to_owned())
    );
    assert_eq!(extract_osc7_cwd(b"\x1b]7;http://example.com/\x07"), None);
    assert_eq!(extract_osc7_cwd(b"\x1b]7;file:///C:/unterminated"), None);
    assert_eq!(extract_osc7_cwd(b"no report at all"), None);
}

#[test]
fn file_urls_need_a_drive_or_a_host() {
    assert_eq!(file_url_to_path("file:///C:/x"), Some(r"C:\x".to_owned()));
    assert_eq!(file_url_to_path("file:///tmp/x"), None);
    assert_eq!(file_url_to_path("not a url"), None);
}

#[test]
fn percent_decoding_keeps_incomplete_escapes() {
    assert_eq!(percent_decode(b"a%20b%2"), b"a b%2".to_vec());
    assert_eq!(percent_decode(b"%zz%41"), b"%zzA".to_vec());
}

#[test]
fn byte_search_finds_first_and_last_occurrences() {
    assert_eq!(find_bytes(b"abcabc", b"bc"), Some(1));
    assert_eq!(rfind_bytes(b"abcabc", b"bc"), Some(4));
    assert_eq!(find_bytes(b"abc", b"x"), None);
    assert_eq!(rfind_bytes(b"ab", b"abc"), None);
}

#[test]
fn partial_sequences_at_the_end_are_held_back() {
    let begin = b"\x1b[?2026h";
    assert_eq!(partial_sequence_suffix(b"text\x1b[?20", begin), 5);
    assert_eq!(partial_sequence_suffix(b"text\x1b", begin), 1);
    assert_eq!(partial_sequence_suffix(b"text", begin), 0);
    assert_eq!(partial_sequence_suffix(b"\x1b[?2026h", begin), 0);
}

#[test]
fn replay_buffer_keeps_the_last_output() {
    let mut buffer = Vec::new();
    append_output(&mut buffer, b"hello");
    append_output(&mut buffer, b" world");
    assert_eq!(buffer, b"hello world".to_vec());
    let big = vec![1_u8; OUTPUT_LIMIT + 3];
    append_output(&mut buffer, &big);
    assert_eq!(buffer.len(), OUTPUT_LIMIT);
    append_output(&mut buffer, b"!");
    assert_eq!(buffer.len(), OUTPUT_LIMIT);
    assert_eq!(buffer.last(), Some(&b'!'));
}

#[test]
fn synchronized_tui_output_is_applied_as_one_frame() {
    let mut pending = b"\x1b[?20".to_vec();
    let mut synchronized = false;
    let framed = frame_output(&mut pending, &mut synchronized, false);
    assert_eq!(framed.chunks, vec![Vec::<u8>::new()]);
    assert_eq!(pending, b"\x1b[?20".to_vec());

    pending.extend_from_slice(b"26hmenu\r\n  first");
    let framed = frame_output(&mut pending, &mut synchronized, false);
    assert!(framed.opened);
    assert!(synchronized);
    assert_eq!(framed.chunks, vec![Vec::<u8>::new()]);

    pending.extend_from_slice(b"\r\n  second\x1b[?2026l");
    let framed = frame_output(&mut pending, &mut synchronized, false);
    assert!(!synchronized);
    assert_eq!(framed.chunks.len(), 2);
    assert_eq!(
        framed.chunks[0],
        b"\x1b[?2026hmenu\r\n  first\r\n  second\x1b[?2026l".to_vec()
    );
    assert!(pending.is_empty());
}

#[test]
fn expired_synchronized_output_is_flushed() {
    let mut pending = b"\x1b[?2026hpartial".to_vec();
    let mut synchronized = true;
    let framed = frame_output(&mut pending, &mut synchronized, true);
    assert_eq!(framed.chunks, vec![b"\x1b[?2026hpartial".to_vec()]);
    assert!(!synchronized);
    assert!(pending.is_empty());
}

#[test]
fn recent_command_osc_is_captured_without_reaching_the_terminal_grid() {
    let mut pending = b"\x1b]6973;Y2FyZ28gdGVzdCAtLXdvcmtzcGFjZQ==\x07PS> ".to_vec();
    let mut recent = None;
    capture_recent_commands(&mut pending, &mut recent);
    assert_eq!(recent.as_deref(), Some("cargo test --workspace"));
    assert_eq!(pending, b"PS> ".to_vec());
}

#[test]
fn decoded_commands_are_trimmed_utf8_within_the_limit() {
    assert_eq!(command_from_decoded(b"  git status \r\n").as_deref(), Some("git status"));
    assert_eq!(command_from_decoded("caf\u{e9}".as_bytes()).as_deref(), Some("caf\u{e9}"));
    assert_eq!(command_from_decoded(b" \t\n"), None);
    assert_eq!(command_from_decoded(b""), None);
    assert_eq!(command_from_decoded(&[0x66, 0xff, 0x67]), None);
    let at_limit = vec![b'a'; RECENT_COMMAND_LIMIT];
    assert_eq!(command_from_decoded(&at_limit).map(|c| c.len()), Some(RECENT_COMMAND_LIMIT));
    let over_limit = vec![b'a'; RECENT_COMMAND_LIMIT + 1];
    assert_eq!(command_from_decoded(&over_limit), None);
    assert_eq!(command_from_payload(b"Z2l0IHN0YXR1cw==").as_deref(), Some("git status"));
}

#[test]
fn invalid_or_blank_recent_commands_are_dropped() {
    assert_eq!(command_from_payload(b"!!!"), None);
    assert_eq!(command_from_payload(b"ICA="), None);
    let mut pending = b"a\x1b]6973;!!!\x1b\\b".to_vec();
    let mut recent = Some("kept".to_owned());
    capture_recent_commands(&mut pending, &mut recent);
    assert_eq!(recent.as_deref(), Some("kept"));
    assert_eq!(pending, b"ab".to_vec());
}

#[test]
fn clipboard_writes_are_taken_in_order() {
    let mut pending = b"x\x1b]52;c;aGk=\x07y\x1b]52;c;dGhlcmU=\x1b\\z".to_vec();
    let texts = take_clipboard_writes(&mut pending);
    assert_eq!(texts, vec!["hi".to_owned(), "there".to_owned()]);
    assert_eq!(pending, b"xyz".to_vec());
}

#[test]
fn framing_keeps_every_byte_in_order() {
    let pending_before = b"one\x1b[?2026htwo\x1b[?2026lthree\x1b[?2".to_vec();
    let mut pending = pending_before.clone();
    let mut synchronized = false;
    let framed = frame_output(&mut pending, &mut synchronized, false);
    let mut joined: Vec<u8> = framed.chunks.concat();
    joined.extend_from_slice(&pending);
    assert_eq!(joined, pending_before);
    assert_eq!(pending, b"\x1b[?2".to_vec());
    assert!(framed.opened);
    assert!(!synchronized);
}
