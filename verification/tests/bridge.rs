use std::time::Duration;

use paj::bridge::{
    BridgeAction, BridgeClient, BridgeError, BridgeEvent, BridgeRead, BridgeStep, MAX_EVENT_BYTES,
};
use paj::registry::Session;

const REQUEST: u128 = 41;

fn session(bridge_socket: Option<&str>) -> Session {
    Session {
        id: 1,
        name: "primary".to_owned(),
        pid: 1,
        pi_session_id: None,
        project_id: "project-id".to_owned(),
        project_root: "/project".to_owned(),
        cwd: "/project".to_owned(),
        branch: None,
        role: "primary".to_owned(),
        parent_pi_session_id: None,
        task: None,
        status: "idle".to_owned(),
        bridge_socket: bridge_socket.map(str::to_owned),
        started_at_ms: 1,
        last_heartbeat_ms: 1,
    }
}

/// Runs events through the protocol the way a client reads them, and returns
/// the texts handed on and how the request ended (`None` while it goes on).
fn run(events: Vec<BridgeEvent>) -> (Vec<String>, Option<Result<(), BridgeError>>) {
    let mut accepted = false;
    let mut texts = Vec::new();
    for event in events {
        match BridgeClient::step(accepted, REQUEST, &event) {
            BridgeStep::Reject(error) => return (texts, Some(Err(error))),
            BridgeStep::Deliver { accepted: now } => {
                accepted = now;
                if let Some(text) = event.text() {
                    texts.push(text.to_owned());
                }
            }
            BridgeStep::Finish(result) => {
                if let Some(text) = event.text() {
                    texts.push(text.to_owned());
                }
                return (texts, Some(result));
            }
        }
    }
    (texts, None)
}

#[test]
fn request_streams_correlated_events_until_completion() {
    let (texts, end) = run(vec![
        BridgeEvent::Accepted { id: REQUEST },
        BridgeEvent::Delta {
            id: REQUEST,
            text: "hel".to_owned(),
        },
        BridgeEvent::Complete {
            id: REQUEST,
            text: "hello".to_owned(),
            actions: vec![BridgeAction {
                id: 7,
                title: "Improve it".to_owned(),
                description: "Implement the improvement".to_owned(),
            }],
        },
        BridgeEvent::Delta {
            id: REQUEST,
            text: "ignored".to_owned(),
        },
    ]);

    assert_eq!(texts, vec!["hel".to_owned(), "hello".to_owned()]);
    assert_eq!(end, Some(Ok(())));
}

#[test]
fn request_rejects_an_event_for_a_different_request() {
    let (texts, end) = run(vec![BridgeEvent::Accepted { id: REQUEST + 1 }]);

    assert!(texts.is_empty());
    assert_eq!(end, Some(Err(BridgeError::RequestIdMismatch)));
}

#[test]
fn request_rejects_output_before_acceptance() {
    let (texts, end) = run(vec![BridgeEvent::Delta {
        id: REQUEST,
        text: "early".to_owned(),
    }]);

    assert!(texts.is_empty());
    assert_eq!(end, Some(Err(BridgeError::EventBeforeAcceptance)));
    assert_eq!(
        BridgeClient::step(
            false,
            REQUEST,
            &BridgeEvent::Complete {
                id: REQUEST,
                text: "x".to_owned(),
                actions: Vec::new()
            }
        ),
        BridgeStep::Reject(BridgeError::EventBeforeAcceptance)
    );
}

#[test]
fn remote_errors_end_the_request_at_any_time() {
    let error = BridgeEvent::Error {
        id: REQUEST,
        code: "busy".to_owned(),
        message: "session is busy".to_owned(),
    };

    let expected = BridgeStep::Finish(Err(BridgeError::Remote {
        code: "busy".to_owned(),
        message: "session is busy".to_owned(),
    }));
    assert_eq!(BridgeClient::step(false, REQUEST, &error), expected);
    assert_eq!(BridgeClient::step(true, REQUEST, &error), expected);
    assert_eq!(error.text(), None);
}

#[test]
fn acceptance_is_kept_while_reading() {
    let delta = BridgeEvent::Delta {
        id: REQUEST,
        text: "x".to_owned(),
    };

    assert_eq!(
        BridgeClient::step(true, REQUEST, &delta),
        BridgeStep::Deliver { accepted: true }
    );
    assert_eq!(
        BridgeClient::step(true, REQUEST, &BridgeEvent::Accepted { id: REQUEST }),
        BridgeStep::Deliver { accepted: true }
    );
    let (_, end) = run(vec![
        BridgeEvent::Accepted { id: REQUEST },
        delta.clone(),
        delta,
    ]);
    assert_eq!(end, None);
}

#[test]
fn event_ids_and_texts() {
    assert_eq!(BridgeEvent::Accepted { id: 3 }.id(), 3);
    assert_eq!(BridgeEvent::Accepted { id: 3 }.text(), None);
    let delta = BridgeEvent::Delta {
        id: 4,
        text: "t".to_owned(),
    };
    assert_eq!(delta.id(), 4);
    assert_eq!(delta.text(), Some("t"));
}

#[test]
fn event_lines_must_be_nonempty_and_bounded() {
    assert_eq!(BridgeClient::check_line(0), Err(BridgeError::Disconnected));
    assert_eq!(BridgeClient::check_line(1), Ok(()));
    assert_eq!(BridgeClient::check_line(MAX_EVENT_BYTES), Ok(()));
    assert_eq!(
        BridgeClient::check_line(MAX_EVENT_BYTES + 1),
        Err(BridgeError::EventTooLarge)
    );
    assert_eq!(MAX_EVENT_BYTES, 1024 * 1024);
}

#[test]
fn only_sessions_with_a_bridge_socket_are_supported() {
    assert_eq!(
        BridgeClient::socket_of(&session(Some("/run/bridge.sock"))),
        Ok("/run/bridge.sock".to_owned())
    );
    assert_eq!(
        BridgeClient::socket_of(&session(None)),
        Err(BridgeError::UnsupportedSession)
    );
}

#[test]
fn client_keeps_its_timeout() {
    let client = BridgeClient::new(Duration::from_secs(30));

    assert_eq!(client.timeout, Duration::from_secs(30));
}

#[test]
fn success_takes_acceptance_then_deltas_then_completion() {
    let complete = BridgeEvent::Complete {
        id: REQUEST,
        text: "done".to_owned(),
        actions: Vec::new(),
    };

    let (_, end) = run(vec![
        BridgeEvent::Accepted { id: REQUEST },
        BridgeEvent::Accepted { id: REQUEST },
        complete.clone(),
    ]);
    assert_eq!(end, Some(Ok(())));

    let (_, end) = run(vec![
        BridgeEvent::Accepted { id: REQUEST },
        BridgeEvent::Complete {
            id: REQUEST + 1,
            text: "other".to_owned(),
            actions: Vec::new(),
        },
        complete.clone(),
    ]);
    assert_eq!(end, Some(Err(BridgeError::RequestIdMismatch)));

    let (_, end) = run(vec![complete]);
    assert_eq!(end, Some(Err(BridgeError::EventBeforeAcceptance)));
}

#[test]
fn reads_end_the_request_on_eof_timeout_oversize_or_bad_json() {
    let client = BridgeClient::new(Duration::from_secs(5));

    assert_eq!(
        client.read_step(true, REQUEST, &BridgeRead::Closed),
        BridgeStep::Reject(BridgeError::Disconnected)
    );
    assert_eq!(
        client.read_step(true, REQUEST, &BridgeRead::TimedOut),
        BridgeStep::Reject(BridgeError::Timeout(Duration::from_secs(5)))
    );
    assert_eq!(
        client.read_step(true, REQUEST, &BridgeRead::Failed("reset".to_owned())),
        BridgeStep::Reject(BridgeError::Io("reset".to_owned()))
    );
    assert_eq!(
        client.read_step(
            true,
            REQUEST,
            &BridgeRead::Line {
                bytes: MAX_EVENT_BYTES + 1,
                event: BridgeEvent::Accepted { id: REQUEST }
            }
        ),
        BridgeStep::Reject(BridgeError::EventTooLarge)
    );
    assert_eq!(
        client.read_step(
            true,
            REQUEST,
            &BridgeRead::Malformed {
                bytes: 3,
                message: "bad".to_owned()
            }
        ),
        BridgeStep::Reject(BridgeError::Json("bad".to_owned()))
    );
    assert_eq!(
        client.read_step(
            false,
            REQUEST,
            &BridgeRead::Line {
                bytes: 30,
                event: BridgeEvent::Accepted { id: REQUEST }
            }
        ),
        BridgeStep::Deliver { accepted: true }
    );
}
