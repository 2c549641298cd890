use reqlog::session::{answer_request, decode_command, select_cursor, step, Action, Event, Phase};

#[test]
fn session_subscribes_before_it_sends_history() {
    let (phase, action) = step(Phase::Connecting, Event::Opened);
    assert_eq!(phase, Phase::Connecting);
    assert_eq!(action, Action::Subscribe);
    let (phase, action) = step(phase, Event::Subscribed);
    assert_eq!(phase, Phase::Streaming);
    assert_eq!(action, Action::SendPage(None));
}

#[test]
fn connecting_session_does_not_forward() {
    let (phase, action) = step(Phase::Connecting, Event::Broadcast("m".to_string()));
    assert_eq!(phase, Phase::Connecting);
    assert_eq!(action, Action::Idle);
    let (phase, action) = step(
        Phase::Connecting,
        Event::ClientText(r#"{"type":"load_more","before":"2024-01-01T00:00:00Z"}"#.to_string()),
    );
    assert_eq!(phase, Phase::Connecting);
    assert_eq!(action, Action::Idle);
}

#[test]
fn streaming_session_forwards_verbatim() {
    let text = "{\"type\":\"new\",\"request\":{}}  ".to_string();
    let (phase, action) = step(Phase::Streaming, Event::Broadcast(text.clone()));
    assert_eq!(phase, Phase::Streaming);
    assert_eq!(action, Action::Forward(text));
}

#[test]
fn load_more_asks_for_the_page_before_the_cursor() {
    let text = r#"{"type":"load_more","before":"2024-01-01T00:00:00.500Z"}"#.to_string();
    let (phase, action) = step(Phase::Streaming, Event::ClientText(text));
    assert_eq!(phase, Phase::Streaming);
    assert_eq!(action, Action::SendPage(Some(1_704_067_200_500)));
}

#[test]
fn malformed_client_messages_are_ignored() {
    let cases = [
        "",
        "not json",
        "{",
        "[]",
        "42",
        r#"{"type":"load_more"}"#,
        r#"{"before":"2024-01-01T00:00:00Z"}"#,
        r#"{"type":"other","before":"2024-01-01T00:00:00Z"}"#,
        r#"{"type":"load_more","before":17}"#,
        r#"{"type":"load_more","before":"yesterday"}"#,
        r#"{"type":["load_more"],"before":"2024-01-01T00:00:00Z"}"#,
    ];
    for text in cases {
        let (phase, action) = step(Phase::Streaming, Event::ClientText(text.to_string()));
        assert_eq!(phase, Phase::Streaming);
        assert_eq!(action, Action::Idle);
        assert_eq!(decode_command(text), None);
    }
}

#[test]
fn other_client_frames_are_ignored() {
    let (phase, action) = step(Phase::Streaming, Event::ClientOther);
    assert_eq!(phase, Phase::Streaming);
    assert_eq!(action, Action::Idle);
}

#[test]
fn session_closes_on_each_terminal_event() {
    for start in [Phase::Connecting, Phase::Streaming] {
        let (phase, action) = step(start, Event::Lagged);
        assert_eq!((phase, action), (Phase::Closed, Action::Close));
        let (phase, action) = step(start, Event::FeedClosed);
        assert_eq!((phase, action), (Phase::Closed, Action::Close));
        let (phase, action) = step(start, Event::ClientClosed);
        assert_eq!((phase, action), (Phase::Closed, Action::Close));
        let (phase, action) = step(start, Event::SendFailed);
        assert_eq!((phase, action), (Phase::Closed, Action::Close));
    }
}

#[test]
fn closed_session_stays_closed() {
    let (phase, action) = step(Phase::Closed, Event::Subscribed);
    assert_eq!((phase, action), (Phase::Closed, Action::Idle));
    let (phase, action) = step(Phase::Closed, Event::Broadcast("m".to_string()));
    assert_eq!((phase, action), (Phase::Closed, Action::Idle));
    let (phase, action) = step(Phase::Closed, Event::Opened);
    assert_eq!((phase, action), (Phase::Closed, Action::Idle));
}

#[test]
fn select_cursor_needs_kind_and_cursor() {
    let lm = || Some("load_more".to_string());
    let c = || Some("c".to_string());
    assert_eq!(select_cursor(lm(), c()), Some("c".to_string()));
    assert_eq!(select_cursor(lm(), None), None);
    assert_eq!(select_cursor(None, c()), None);
    assert_eq!(select_cursor(Some("load_mor".to_string()), c()), None);
    assert_eq!(select_cursor(Some("LOAD_MORE".to_string()), c()), None);
    assert_eq!(select_cursor(lm(), Some(String::new())), Some(String::new()));
}

#[test]
fn decode_command_reads_the_cursor_in_milliseconds() {
    assert_eq!(
        decode_command(r#"{"type":"load_more","before":"1970-01-01T00:00:01.234Z"}"#),
        Some(1234)
    );
    assert_eq!(
        decode_command(r#"{"before":"1970-01-01T01:00:00+01:00","type":"load_more","x":1}"#),
        Some(0)
    );
}

#[test]
fn slow_subscriber_is_disconnected() {
    let (tx, mut slow) = tokio::sync::broadcast::channel::<String>(100);
    let mut quick = tx.subscribe();
    let mut quick_got: usize = 0;
    for i in 0..200 {
        let sent = tx.send(format!("m{}", i));
        assert!(sent.is_ok());
        match quick.try_recv() {
            Ok(m) => {
                assert_eq!(m, format!("m{}", i));
                quick_got += 1;
            }
            Err(_) => panic!("the reading subscriber fell behind"),
        }
    }
    assert_eq!(quick_got, 200);
    let event = match slow.try_recv() {
        Ok(m) => Event::Broadcast(m),
        Err(tokio::sync::broadcast::error::TryRecvError::Lagged(_)) => Event::Lagged,
        Err(_) => Event::FeedClosed,
    };
    assert!(matches!(event, Event::Lagged));
    let (phase, action) = step(Phase::Streaming, event);
    assert_eq!(phase, Phase::Closed);
    assert_eq!(action, Action::Close);
}

#[test]
fn answer_request_pages_only_on_a_cursor() {
    assert_eq!(answer_request(Some(17)), Action::SendPage(Some(17)));
    assert_eq!(answer_request(Some(-1)), Action::SendPage(Some(-1)));
    assert_eq!(answer_request(None), Action::Idle);
}
