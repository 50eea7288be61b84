use ade::protocol::{
    ClientRequest, FrameError, MAX_FRAME_SIZE, PROTOCOL_VERSION, Versioned, decode_frame_length,
    encode_frame, ensure_version, pipe_name_for_user,
};
use ade::PaneId;

#[test]
fn framed_message_round_trips() {
    let request = Versioned::new(ClientRequest::Resize {
        pane_id: PaneId::new(),
        cols: 120,
        rows: 40,
    });
    assert_eq!(request.protocol_version, PROTOCOL_VERSION);
    let json = br#"{"protocol_version":1,"message":{"Resize":{"cols":120,"rows":40}}}"#;
    let frame = encode_frame(json).unwrap();
    let header: [u8; 4] = frame[..4].try_into().unwrap();
    let length = decode_frame_length(header).unwrap();
    assert_eq!(length, json.len());
    assert_eq!(&frame[4..], &json[..]);
}

#[test]
fn oversized_length_is_rejected_before_reading_body() {
    let bytes = u32::try_from(MAX_FRAME_SIZE + 1).unwrap().to_le_bytes();
    let error = decode_frame_length(bytes).unwrap_err();
    assert!(matches!(error, FrameError::TooLarge(_)));
}

#[test]
fn pipe_user_component_is_sanitized() {
    assert_eq!(
        pipe_name_for_user(r"domain\a user"),
        r"\\.\pipe\ade-domain_a_user"
    );
}

#[test]
fn frame_header_is_the_little_endian_length() {
    let body = vec![7_u8; 300];
    let frame = encode_frame(&body).unwrap();
    assert_eq!(&frame[..4], &[44, 1, 0, 0]);
    assert_eq!(frame.len(), 304);
    assert_eq!(decode_frame_length([44, 1, 0, 0]), Ok(300));
}

#[test]
fn largest_frame_is_accepted_and_one_more_byte_refused() {
    let limit = u32::try_from(MAX_FRAME_SIZE).unwrap().to_le_bytes();
    assert_eq!(decode_frame_length(limit), Ok(MAX_FRAME_SIZE));
    let body = vec![0_u8; MAX_FRAME_SIZE + 1];
    assert_eq!(
        encode_frame(&body),
        Err(FrameError::TooLarge(MAX_FRAME_SIZE + 1))
    );
}

#[test]
fn pipe_names_keep_safe_characters() {
    assert_eq!(pipe_name_for_user("Ada-Lovelace_1"), r"\\.\pipe\ade-Ada-Lovelace_1");
    assert_eq!(pipe_name_for_user("é"), r"\\.\pipe\ade-_");
}

#[test]
fn protocol_versions_must_match() {
    assert_eq!(ensure_version(PROTOCOL_VERSION), Ok(()));
    assert_eq!(
        ensure_version(7),
        Err("daemon protocol 7 does not match client 1".to_owned())
    );
}
