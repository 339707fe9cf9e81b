use sift::codec::{decode_one, decode_one_recovering, encode, skip_oversized_body, FrameReader};
use sift::handshake::{handle_hello, status_response};
use sift::protocol::{
    ClientRole, DaemonError, DaemonStatus, Envelope, EventCursor, Lifecycle, Request,
    ResourceSnapshot, Response, MAX_REQUEST_BYTES, OBSERVER_CLIENT, PROTOCOL_VERSION,
    PROTOCOL_VERSION_V1,
};

fn frame_of(payload: &[u8]) -> Vec<u8> {
    encode(payload).expect("payload within limit")
}

fn hello_env(version: u32) -> Envelope<Request> {
    Envelope {
        request_id: 1,
        payload: Request::Hello { protocol_version: version, client: "test-client".into() },
    }
}

fn observer_hello_env(version: u32) -> Envelope<Request> {
    Envelope {
        request_id: 1,
        payload: Request::Hello { protocol_version: version, client: OBSERVER_CLIENT.into() },
    }
}

fn status(lifecycle: Lifecycle) -> DaemonStatus {
    DaemonStatus {
        lifecycle,
        instance_id: "x".into(),
        observed_at_unix_ms: 0,
        model_id: None,
        chunks_live: None,
        chunks_dead: None,
        indexed_commit: None,
        idle_seconds: 0,
        uptime_seconds: 0,
        current_progress: None,
        last_index: None,
        resources: ResourceSnapshot::unavailable(0),
    }
}

#[test]
fn accepts_frame_at_exactly_max_request_bytes() {
    let mut frame = Vec::new();
    frame.extend_from_slice(&(MAX_REQUEST_BYTES as u32).to_le_bytes());
    frame.extend(std::iter::repeat_n(0u8, MAX_REQUEST_BYTES));
    let mut cur = FrameReader::new(frame);
    match decode_one_recovering(&mut cur) {
        Ok(payload) => assert_eq!(payload.len(), MAX_REQUEST_BYTES),
        Err(DaemonError::RequestTooLarge { .. }) => {
            panic!("exact MAX_REQUEST_BYTES must not be RequestTooLarge")
        }
        Err(_) => {}
    }
}

#[test]
fn rejects_one_byte_over_max_without_allocating_declared_length() {
    let over = MAX_REQUEST_BYTES + 1;
    let mut frame = Vec::new();
    frame.extend_from_slice(&(over as u32).to_le_bytes());
    frame.extend(std::iter::repeat_n(0u8, over));
    let mut cur = FrameReader::new(frame);
    let err = decode_one_recovering(&mut cur).unwrap_err();
    match err {
        DaemonError::RequestTooLarge { bytes, limit } => {
            assert_eq!(bytes, over);
            assert_eq!(limit, MAX_REQUEST_BYTES);
        }
        other => panic!("expected RequestTooLarge, got {other:?}"),
    }
}

#[test]
fn truncated_frame_yields_malformed() {
    let mut encoded = frame_of(b"a hello request body");
    encoded.truncate(encoded.len() / 2);
    let mut cur = FrameReader::new(encoded);
    let err = decode_one_recovering(&mut cur).unwrap_err();
    match err {
        DaemonError::Malformed { detail } => {
            assert!(detail.contains("truncated"), "{detail}");
        }
        other => panic!("expected Malformed, got {other:?}"),
    }
}

#[test]
fn after_rejection_subsequent_valid_frame_succeeds() {
    let over = MAX_REQUEST_BYTES + 1;
    let mut stream = Vec::new();
    stream.extend_from_slice(&(over as u32).to_le_bytes());
    stream.extend(std::iter::repeat_n(0xABu8, over));
    stream.extend_from_slice(&frame_of(b"second"));

    let mut cur = FrameReader::new(stream);
    let err = decode_one_recovering(&mut cur).unwrap_err();
    assert!(matches!(err, DaemonError::RequestTooLarge { .. }));

    let got = decode_one_recovering(&mut cur).expect("second frame");
    assert_eq!(got, b"second".to_vec());
}

#[test]
fn after_malformed_truncation_new_cursor_with_valid_frame_succeeds() {
    let encoded = frame_of(b"hello");
    let mut cur = FrameReader::new(encoded);
    let got = decode_one_recovering(&mut cur).unwrap();
    assert_eq!(got, b"hello".to_vec());
}

#[test]
fn encode_prefixes_little_endian_length() {
    let framed = frame_of(&[7, 8, 9]);
    assert_eq!(framed, vec![3, 0, 0, 0, 7, 8, 9]);
    let long = vec![1u8; 300];
    let framed = frame_of(&long);
    assert_eq!(&framed[..4], &[44, 1, 0, 0]);
    assert_eq!(framed.len(), 304);
}

#[test]
fn encode_refuses_payload_over_limit() {
    let big = vec![0u8; MAX_REQUEST_BYTES + 1];
    match encode(&big) {
        Err(DaemonError::RequestTooLarge { bytes, limit }) => {
            assert_eq!(bytes, MAX_REQUEST_BYTES + 1);
            assert_eq!(limit, MAX_REQUEST_BYTES);
        }
        other => panic!("unexpected {other:?}"),
    }
}

#[test]
fn frames_read_back_in_order() {
    let mut stream = frame_of(b"one");
    stream.extend(frame_of(b""));
    stream.extend(frame_of(b"three"));
    let mut cur = FrameReader::new(stream);
    assert_eq!(decode_one(&mut cur).unwrap(), b"one".to_vec());
    assert_eq!(decode_one(&mut cur).unwrap(), Vec::<u8>::new());
    assert_eq!(decode_one(&mut cur).unwrap(), b"three".to_vec());
    assert_eq!(cur.consumed(), 4 + 3 + 4 + 4 + 5);
}

#[test]
fn short_length_prefix_is_malformed() {
    let mut cur = FrameReader::new(vec![1, 0]);
    match decode_one(&mut cur) {
        Err(DaemonError::Malformed { detail }) => assert!(detail.contains("truncated")),
        other => panic!("unexpected {other:?}"),
    }
    assert_eq!(cur.consumed(), 2);
}

#[test]
fn plain_decode_does_not_skip_oversized_body() {
    let over = MAX_REQUEST_BYTES + 1;
    let mut stream = Vec::new();
    stream.extend_from_slice(&(over as u32).to_le_bytes());
    stream.extend(std::iter::repeat_n(0u8, 10));
    let mut cur = FrameReader::new(stream);
    assert!(matches!(decode_one(&mut cur), Err(DaemonError::RequestTooLarge { .. })));
    assert_eq!(cur.consumed(), 4);
}

#[test]
fn skipping_past_the_end_is_malformed() {
    let mut cur = FrameReader::new(vec![0u8; 5]);
    assert!(skip_oversized_body(&mut cur, 3).is_ok());
    assert_eq!(cur.consumed(), 3);
    match skip_oversized_body(&mut cur, 10) {
        Err(DaemonError::Malformed { .. }) => {}
        other => panic!("unexpected {other:?}"),
    }
    assert_eq!(cur.consumed(), 5);
}

#[test]
fn oversized_frame_with_short_body_fails_to_skip() {
    let over = MAX_REQUEST_BYTES + 1;
    let mut stream = Vec::new();
    stream.extend_from_slice(&(over as u32).to_le_bytes());
    stream.extend(std::iter::repeat_n(0u8, 100));
    let mut cur = FrameReader::new(stream);
    assert!(matches!(decode_one_recovering(&mut cur), Err(DaemonError::Malformed { .. })));
}

#[test]
fn matching_protocol_version_succeeds() {
    let (ok, resp) = handle_hello(&hello_env(PROTOCOL_VERSION), "mock", 42).unwrap();
    assert_eq!(ok.client, "test-client");
    assert_eq!(ok.role, ClientRole::Worker);
    match *resp {
        Response::Hello { protocol_version, model_id, chunks } => {
            assert_eq!(protocol_version, PROTOCOL_VERSION);
            assert_eq!(model_id, "mock");
            assert_eq!(chunks, 42);
        }
        other => panic!("unexpected {other:?}"),
    }
}

#[test]
fn version_one_negotiation_yields_named_mismatch() {
    let err = *handle_hello(&hello_env(PROTOCOL_VERSION_V1), "mock", 0).unwrap_err();
    match err {
        Response::Error(DaemonError::ProtocolVersion { daemon, client }) => {
            assert_eq!(daemon, PROTOCOL_VERSION);
            assert_eq!(client, PROTOCOL_VERSION_V1);
            assert_eq!(daemon, 2);
            assert_eq!(client, 1);
        }
        other => panic!("unexpected {other:?}"),
    }
}

#[test]
fn mismatched_protocol_version_names_both() {
    let err = *handle_hello(&hello_env(PROTOCOL_VERSION + 1), "mock", 0).unwrap_err();
    match err {
        Response::Error(DaemonError::ProtocolVersion { daemon, client }) => {
            assert_eq!(daemon, PROTOCOL_VERSION);
            assert_eq!(client, PROTOCOL_VERSION + 1);
        }
        other => panic!("unexpected {other:?}"),
    }
}

#[test]
fn observer_hello_negotiates_observer_role() {
    let (ok, resp) = handle_hello(&observer_hello_env(PROTOCOL_VERSION), "mock", 0).unwrap();
    assert_eq!(ok.role, ClientRole::Observer);
    assert_eq!(ok.client, OBSERVER_CLIENT);
    assert!(matches!(*resp, Response::Hello { .. }));
}

#[test]
fn request_before_hello_is_refused() {
    let env = Envelope { request_id: 1, payload: Request::Status };
    let err = *handle_hello(&env, "mock", 0).unwrap_err();
    match err {
        Response::Error(DaemonError::Malformed { detail }) => {
            assert!(detail.contains("Hello"), "{detail}");
        }
        other => panic!("unexpected {other:?}"),
    }
}

#[test]
fn status_response_wraps_the_status() {
    let s = status(Lifecycle::Ready);
    assert_eq!(status_response(s.clone()), Response::Status(s));
}

#[test]
fn protocol_is_version_two() {
    assert_eq!(PROTOCOL_VERSION, 2);
    assert_eq!(PROTOCOL_VERSION_V1, 1);
}

#[test]
fn version_one_client_yields_named_mismatch_against_v2() {
    let err = DaemonError::ProtocolVersion { daemon: PROTOCOL_VERSION, client: PROTOCOL_VERSION_V1 };
    match err {
        DaemonError::ProtocolVersion { daemon, client } => {
            assert_eq!(daemon, 2);
            assert_eq!(client, 1);
        }
        other => panic!("unexpected {other:?}"),
    }
}

#[test]
fn observer_client_string_is_reserved() {
    assert_eq!(ClientRole::from_hello_client(OBSERVER_CLIENT), ClientRole::Observer);
    assert_eq!(ClientRole::from_hello_client("daemon-client"), ClientRole::Worker);
}

#[test]
fn unavailable_model_metadata_is_explicit_none() {
    let status = DaemonStatus {
        lifecycle: Lifecycle::Starting,
        instance_id: "x".into(),
        observed_at_unix_ms: 0,
        model_id: None,
        chunks_live: None,
        chunks_dead: None,
        indexed_commit: None,
        idle_seconds: 0,
        uptime_seconds: 0,
        current_progress: None,
        last_index: None,
        resources: ResourceSnapshot::unavailable(0),
    };
    assert!(status.model_id.is_none());
    assert!(status.chunks_live.is_none());
    assert!(status.resources.device_id.is_none());
    assert!(status.resources.device_used_bytes.is_none());
    let _ = status.resources;
}

#[test]
fn event_cursor_clone_is_equal() {
    let c = EventCursor { instance_id: "abc".into(), sequence: 7 };
    assert_eq!(c.clone(), c);
}
