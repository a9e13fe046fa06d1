use gpt_copy_v9::error::AppError;
use gpt_copy_v9::openrouter::{FakeOpenRouterClient, StreamEvent};
use gpt_copy_v9::repository::Repository;
use gpt_copy_v9::routes::chat::{
    begin_stream, finish_stream, prepare_stream_chat, relay_stream, sse_frame, sse_type_matches,
    stream_error_message, ChatRelay, StreamRequest,
};
use gpt_copy_v9::routes::conversations::{create_conversation, CreateConversationRequest};

fn new_conversation(repo: &mut Repository) -> String {
    create_conversation(repo, CreateConversationRequest { title: Some("Stream Test".to_string()) }, [1; 16], 1)
        .unwrap()
        .id
}

/// Relays the events to a client that accepts `accepted` events, then stores
/// the reply as the route does; returns the events sent.
fn relay_to(repo: &mut Repository, id: &str, events: Vec<Result<StreamEvent, AppError>>, accepted: usize) -> Vec<String> {
    let mut relay = ChatRelay::new();
    let mut sent = Vec::new();
    for event in events {
        let frame = relay.forward(&event);
        let delivered = sent.len() < accepted;
        if delivered {
            sent.push(frame);
        }
        if !relay.delivered(delivered) {
            break;
        }
    }
    if !relay.is_finished() {
        relay.upstream_ended();
    }
    if let Some(stored) = finish_stream(repo, id, &relay, [200; 16], 500) {
        stored.unwrap();
    }
    sent
}

/// Relays the events to a client that takes every one, then stores the reply
/// as the route does; returns the events sent.
fn relay(repo: &mut Repository, id: &str, events: Vec<Result<StreamEvent, AppError>>) -> Vec<String> {
    let (frames, relay) = relay_stream(&events);
    if let Some(stored) = finish_stream(repo, id, &relay, [201; 16], 501) {
        stored.unwrap();
    }
    frames
}

#[test]
fn test_stream_chat_validates_empty_content() {
    let mut repo = Repository::new();
    let id = new_conversation(&mut repo);
    let err = prepare_stream_chat(&repo, &id, &StreamRequest { content: String::new() }).unwrap_err();
    assert_eq!(err.status(), 400);
    assert_eq!(err.code(), "BAD_REQUEST");
}

#[test]
fn test_stream_chat_unknown_conversation() {
    let repo = Repository::new();
    let err = prepare_stream_chat(&repo, "nonexistent", &StreamRequest { content: "Hi".to_string() }).unwrap_err();
    assert_eq!(err.status(), 404);
}

#[test]
fn test_stream_persists_user_message() {
    let mut repo = Repository::new();
    let id = new_conversation(&mut repo);
    let body = StreamRequest { content: "Hello".to_string() };
    let history = prepare_stream_chat(&repo, &id, &body).unwrap();
    let client = FakeOpenRouterClient { responses: vec!["World".to_string()] };
    let events = client.stream_chat("test-model", history).unwrap();
    begin_stream(&mut repo, &id, &body, None, [2; 16], 2).unwrap();
    let frames = relay(&mut repo, &id, events.into_iter().map(Ok).collect());
    assert_eq!(
        frames.concat(),
        "data: {\"type\":\"delta\",\"content\":\"World\"}\n\ndata: {\"type\":\"done\"}\n\n"
    );

    let arr = repo.list_messages(&id);
    assert!(!arr.is_empty());
    assert_eq!(arr[0].role, "user");
    assert_eq!(arr[0].content, "Hello");
    assert_eq!(arr[1].role, "assistant");
    assert_eq!(arr[1].content, "World");
}

#[test]
fn history_sent_upstream_ends_with_the_new_message() {
    let mut repo = Repository::new();
    let id = new_conversation(&mut repo);
    repo.create_message(&id, "user", "Q1", [2; 16], 2).unwrap();
    repo.create_message(&id, "assistant", "A1", [3; 16], 3).unwrap();
    let history = prepare_stream_chat(&repo, &id, &StreamRequest { content: "Q2".to_string() }).unwrap();
    let pairs: Vec<(String, String)> = history.into_iter().map(|m| (m.role, m.content)).collect();
    assert_eq!(
        pairs,
        [
            ("user".to_string(), "Q1".to_string()),
            ("assistant".to_string(), "A1".to_string()),
            ("user".to_string(), "Q2".to_string())
        ]
    );
}

#[test]
fn frames_for_each_event() {
    assert_eq!(
        sse_frame(&Ok(StreamEvent::Delta("He said \"hi\"".to_string()))),
        "data: {\"type\":\"delta\",\"content\":\"He said \\\"hi\\\"\"}\n\n"
    );
    assert_eq!(sse_frame(&Ok(StreamEvent::Done)), "data: {\"type\":\"done\"}\n\n");
    assert_eq!(
        sse_frame(&Err(AppError::OpenRouter("boom".to_string()))),
        "data: {\"type\":\"error\",\"message\":\"Upstream model service error\"}\n\n"
    );
}

#[test]
fn stream_error_messages() {
    assert_eq!(stream_error_message(&AppError::OpenRouter("x".into())), "Upstream model service error");
    assert_eq!(stream_error_message(&AppError::Database("x".into())), "A database error occurred");
    assert_eq!(stream_error_message(&AppError::Internal("x".into())), "An internal server error occurred");
    assert_eq!(stream_error_message(&AppError::NotFound("x".into())), "Stream error");
    assert_eq!(stream_error_message(&AppError::BadRequest("x".into())), "Stream error");
}

#[test]
fn frame_types() {
    assert!(sse_type_matches("data: {\"type\":\"done\"}\n\n", "done"));
    assert!(!sse_type_matches("data: {\"type\":\"done\"}\n\n", "error"));
    assert!(sse_type_matches(": ping\ndata: {\"type\":\"error\",\"message\":\"m\"}\n", "error"));
    assert!(!sse_type_matches("data: not json", "done"));
    assert!(!sse_type_matches("event: x", "done"));
    assert!(!sse_type_matches("data: {\"type\":1}", "done"));
    let frame = sse_frame(&Ok(StreamEvent::Delta("done".to_string())));
    assert!(sse_type_matches(&frame, "delta"));
    assert!(!sse_type_matches(&frame, "done"));
}

#[test]
fn reply_kept_only_when_done_reaches_the_client() {
    // The client leaves after the first frame: nothing is kept.
    let mut repo = Repository::new();
    let id = new_conversation(&mut repo);
    let events = vec![Ok(StreamEvent::Delta("a".into())), Ok(StreamEvent::Delta("b".into())), Ok(StreamEvent::Done)];
    let sent = relay_to(&mut repo, &id, events, 1);
    assert_eq!(sent.len(), 1);
    assert!(repo.list_messages(&id).is_empty());

    // An error ends the relay without keeping anything.
    let events = vec![Ok(StreamEvent::Delta("a".into())), Err(AppError::OpenRouter("x".into())), Ok(StreamEvent::Done)];
    let sent = relay(&mut repo, &id, events);
    assert_eq!(sent.len(), 2);
    assert!(repo.list_messages(&id).is_empty());

    // The upstream stream ends without `done`: nothing is kept.
    let events = vec![Ok(StreamEvent::Delta("a".into()))];
    relay(&mut repo, &id, events);
    assert!(repo.list_messages(&id).is_empty());

    // `done` with an empty reply: nothing is kept.
    relay(&mut repo, &id, vec![Ok(StreamEvent::Done)]);
    assert!(repo.list_messages(&id).is_empty());

    // Every piece, then `done`: the pieces are kept in order.
    let events = vec![Ok(StreamEvent::Delta("a".into())), Ok(StreamEvent::Delta("b".into())), Ok(StreamEvent::Done), Ok(StreamEvent::Delta("c".into()))];
    let sent = relay(&mut repo, &id, events);
    assert_eq!(sent.len(), 3);
    let msgs = repo.list_messages(&id);
    assert_eq!(msgs.len(), 1);
    assert_eq!(msgs[0].content, "ab");
}

#[test]
fn upstream_failure_stores_nothing() {
    let mut repo = Repository::new();
    let id = new_conversation(&mut repo);
    let body = StreamRequest { content: "Hello".to_string() };
    match begin_stream(&mut repo, &id, &body, Some("connection refused".to_string()), [2; 16], 2) {
        Err(AppError::OpenRouter(m)) => assert_eq!(m, "connection refused"),
        other => panic!("expected an upstream error, got {other:?}"),
    }
    assert!(repo.list_messages(&id).is_empty());
}

#[test]
fn relay_stops_at_the_first_error() {
    let mut repo = Repository::new();
    let id = new_conversation(&mut repo);
    let events = vec![
        Ok(StreamEvent::Delta("a".into())),
        Err(AppError::Database("x".into())),
        Ok(StreamEvent::Delta("b".into())),
        Ok(StreamEvent::Done),
    ];
    let (frames, relay) = relay_stream(&events);
    assert_eq!(
        frames,
        vec![
            "data: {\"type\":\"delta\",\"content\":\"a\"}\n\n".to_string(),
            "data: {\"type\":\"error\",\"message\":\"A database error occurred\"}\n\n".to_string(),
        ]
    );
    assert!(relay.is_finished());
    assert!(relay.assistant_reply().is_none());
    assert!(finish_stream(&mut repo, &id, &relay, [9; 16], 9).is_none());
    assert!(repo.list_messages(&id).is_empty());
}

#[test]
fn control_characters_are_escaped_in_events() {
    assert_eq!(
        sse_frame(&Ok(StreamEvent::Delta("a\nb\t\u{1}\\".to_string()))),
        "data: {\"type\":\"delta\",\"content\":\"a\\nb\\t\\u0001\\\\\"}\n\n"
    );
}
