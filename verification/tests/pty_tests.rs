use ade::pty::{
    ConPtySession, ExitStatus, PtyError, PtySize, SpawnCommand, WAIT_OBJECT_0, WAIT_TIMEOUT,
    build_command_line, quote_windows_argument, remaining_after_write, wait_outcome,
    wait_timeout_millis,
};

#[test]
fn command_line_quoting_handles_spaces_quotes_and_trailing_slashes() {
    assert_eq!(quote_windows_argument("plain"), "plain");
    assert_eq!(quote_windows_argument("two words"), "\"two words\"");
    assert_eq!(quote_windows_argument("a\"b"), "\"a\\\"b\"");
    assert_eq!(
        quote_windows_argument("path with space\\"),
        "\"path with space\\\\\""
    );
}

#[test]
fn empty_arguments_are_quoted() {
    assert_eq!(quote_windows_argument(""), "\"\"");
}

#[test]
fn pty_size_refuses_zero_and_oversized_dimensions() {
    assert_eq!(PtySize::new(80, 24), Ok(PtySize { columns: 80, rows: 24 }));
    assert_eq!(
        PtySize::new(0, 24),
        Err(PtyError::InvalidSize { columns: 0, rows: 24 })
    );
    assert_eq!(
        PtySize::new(80, 40000),
        Err(PtyError::InvalidSize {
            columns: 80,
            rows: 40000
        })
    );
    let coord = PtySize::new(100, 30).unwrap().coord();
    assert_eq!((coord.x, coord.y), (100, 30));
}

#[test]
fn spawn_command_takes_its_arguments() {
    let command = SpawnCommand::new("cmd.exe".to_owned(), r"C:\work".to_owned())
        .arguments(vec!["/d".to_owned(), "/c".to_owned()]);
    assert_eq!(command.executable, "cmd.exe");
    assert_eq!(command.arguments, vec!["/d".to_owned(), "/c".to_owned()]);
    assert_eq!(command.current_directory, r"C:\work");
}

#[test]
fn command_line_is_null_terminated_utf16() {
    let line = build_command_line("cmd.exe", &vec!["/c".to_owned(), "two words".to_owned()]).unwrap();
    let expected: Vec<u16> = "cmd.exe /c \"two words\"\0".encode_utf16().collect();
    assert_eq!(line, expected);
    assert_eq!(
        build_command_line("cmd\0.exe", &Vec::new()),
        Err(PtyError::EmbeddedNull)
    );
}

#[test]
fn pipes_are_handed_out_once() {
    let size = PtySize::new(80, 24).unwrap();
    let mut session = ConPtySession::from_parts(1234, size, 10, 11);
    assert_eq!(session.process_id(), 1234);
    assert_eq!(session.size(), size);
    assert_eq!(session.take_reader().unwrap().raw_handle(), 11);
    assert!(matches!(
        session.take_reader(),
        Err(PtyError::PipeAlreadyTaken("output"))
    ));
    assert_eq!(session.take_writer().unwrap().raw_handle(), 10);
    assert!(matches!(
        session.take_writer(),
        Err(PtyError::PipeAlreadyTaken("input"))
    ));
    let bigger = PtySize::new(100, 30).unwrap();
    session.record_resize(bigger);
    assert_eq!(session.size(), bigger);
}

#[test]
fn wait_results_are_classified() {
    assert_eq!(wait_outcome(WAIT_TIMEOUT, Ok(0)), Ok(None));
    assert_eq!(
        wait_outcome(WAIT_OBJECT_0, Ok(3)),
        Ok(Some(ExitStatus { code: 3 }))
    );
    assert_eq!(
        wait_outcome(0x80, Ok(0)),
        Err(PtyError::UnexpectedWaitResult(0x80))
    );
    assert_eq!(
        wait_outcome(WAIT_OBJECT_0, Err(PtyError::Windows { code: -1 })),
        Err(PtyError::Windows { code: -1 })
    );
    assert_eq!(wait_timeout_millis(0), 0);
    assert_eq!(wait_timeout_millis(u128::from(u32::MAX) + 1), u32::MAX - 1);
}

#[test]
fn writes_that_accept_nothing_fail() {
    assert_eq!(remaining_after_write(10, 4), Ok(6));
    assert_eq!(remaining_after_write(10, 0), Err(PtyError::WriteZero));
}

#[test]
fn try_wait_reports_a_running_or_exited_root_process() {
    let session = ConPtySession::from_parts(7, PtySize::new(80, 24).unwrap(), 1, 2);
    assert_eq!(session.try_wait(WAIT_TIMEOUT, Ok(0)), Ok(None));
    assert_eq!(
        session.try_wait(WAIT_OBJECT_0, Ok(0)),
        Ok(Some(ExitStatus { code: 0 }))
    );
}
