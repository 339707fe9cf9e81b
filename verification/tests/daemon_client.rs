use sift::client::{
    accept_response, append_capped, hello_reply, observe_reply, spawn_step, stream_frame, Reply,
    RequestCounter, SpawnStep, MAX_STARTUP_STDERR_BYTES,
};
use sift::protocol::{DaemonError, Envelope, Response};

fn hello() -> Response {
    Response::Hello { protocol_version: 2, model_id: "m".into(), chunks: 1 }
}

#[test]
fn request_ids_count_up_from_one() {
    let mut ids = RequestCounter::new();
    assert_eq!(ids.next_id(), 1);
    assert_eq!(ids.take(), 1);
    assert_eq!(ids.take(), 2);
    assert_eq!(ids.next_id(), 3);
}

#[test]
fn responses_must_answer_the_request_sent() {
    let ok = accept_response(4, Envelope { request_id: 4, payload: hello() });
    assert_eq!(ok, Ok(hello()));
    let err = accept_response(4, Envelope { request_id: 4, payload: Response::Error(DaemonError::Starting) });
    assert_eq!(err, Err(DaemonError::Starting));
    let mismatch = accept_response(4, Envelope { request_id: 17, payload: hello() });
    assert_eq!(
        mismatch,
        Err(DaemonError::Malformed { detail: "response id mismatch: sent 4, got 17".into() })
    );
}

#[test]
fn hello_and_observe_answers_are_recognised() {
    assert_eq!(hello_reply(hello()), Reply::Accepted(()));
    assert_eq!(hello_reply(Response::Error(DaemonError::Starting)), Reply::Unexpected(Response::Error(DaemonError::Starting)));
    match observe_reply(hello()) {
        Reply::Unexpected(r) => assert_eq!(r, hello()),
        other => panic!("unexpected {other:?}"),
    }
}

#[test]
fn streams_end_at_the_report_or_an_error() {
    let progress = Response::IndexProgress { phase: sift::protocol::IndexPhase::Parsing, done: 1, total: None };
    assert_eq!(stream_frame(3, Ok(Envelope { request_id: 3, payload: progress.clone() })), (progress, false));
    let (frame, done) = stream_frame(3, Ok(Envelope { request_id: 9, payload: hello() }));
    assert!(done);
    assert_eq!(
        frame,
        Response::Error(DaemonError::Malformed {
            detail: "streaming response id mismatch: expected 3, got 9".into()
        })
    );
    let (frame, done) = stream_frame(3, Err(DaemonError::Internal { detail: "eof".into() }));
    assert!(done);
    assert_eq!(frame, Response::Error(DaemonError::Internal { detail: "eof".into() }));
}

#[test]
fn startup_stderr_is_capped() {
    let mut captured = vec![1u8; MAX_STARTUP_STDERR_BYTES - 2];
    append_capped(&mut captured, &[7, 8, 9, 10]);
    assert_eq!(captured.len(), MAX_STARTUP_STDERR_BYTES);
    assert_eq!(&captured[MAX_STARTUP_STDERR_BYTES - 2..], &[7, 8]);
    append_capped(&mut captured, &[11]);
    assert_eq!(captured.len(), MAX_STARTUP_STDERR_BYTES);
    let mut small = Vec::new();
    append_capped(&mut small, b"abc");
    assert_eq!(small, b"abc".to_vec());
}

#[test]
fn spawning_follows_the_daemon_state() {
    assert_eq!(spawn_step(true, true, Some("exit status: 1"), None, true), SpawnStep::Connect);
    assert_eq!(spawn_step(false, false, None, None, false), SpawnStep::Spawn);
    assert_eq!(spawn_step(false, true, None, None, false), SpawnStep::Wait);
    assert_eq!(
        spawn_step(false, true, None, None, true),
        SpawnStep::Fail(DaemonError::Internal { detail: "timed out waiting for daemon".into() })
    );
    assert_eq!(
        spawn_step(false, true, Some("exit status: 2"), Some("  no model  \n"), false),
        SpawnStep::Fail(DaemonError::Internal { detail: "daemon exited with exit status: 2: no model".into() })
    );
    assert_eq!(
        spawn_step(false, true, Some("exit status: 2"), Some("   "), true),
        SpawnStep::Fail(DaemonError::Internal { detail: "daemon exited with exit status: 2".into() })
    );
}
