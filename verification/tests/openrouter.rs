use gpt_copy_v9::openrouter::{parse_upstream_chunk, ChatMessage, FakeOpenRouterClient, StreamEvent};

#[test]
fn test_fake_openrouter_emits_deltas() {
    let client = FakeOpenRouterClient {
        responses: vec!["Hello".to_string(), " world".to_string()],
    };
    let msgs = vec![ChatMessage {
        role: "user".to_string(),
        content: "Hi".to_string(),
    }];
    let stream = client.stream_chat("test-model", msgs).unwrap();

    let mut collected = String::new();
    for event in stream {
        match event {
            StreamEvent::Delta(d) => collected.push_str(&d),
            StreamEvent::Done => break,
        }
    }
    assert_eq!(collected, "Hello world");
}

#[test]
fn test_fake_openrouter_empty_responses() {
    let client = FakeOpenRouterClient { responses: vec![] };
    let msgs = vec![ChatMessage {
        role: "user".to_string(),
        content: "Hi".to_string(),
    }];
    let stream = client.stream_chat("test-model", msgs).unwrap();

    let mut got_done = false;
    for event in stream {
        if matches!(event, StreamEvent::Done) {
            got_done = true;
            break;
        }
    }
    assert!(got_done);
}

fn delta(e: StreamEvent) -> Option<String> {
    match e {
        StreamEvent::Delta(d) => Some(d),
        StreamEvent::Done => None,
    }
}

#[test]
fn upstream_chunk_with_a_delta() {
    let chunk = b"data: {\"choices\":[{\"delta\":{\"content\":\"Hi\"}}]}\n\n";
    assert_eq!(delta(parse_upstream_chunk(chunk)), Some("Hi".to_string()));
}

#[test]
fn upstream_chunk_done_marker() {
    assert!(delta(parse_upstream_chunk(b"data: [DONE]\n\n")).is_none());
}

#[test]
fn upstream_chunk_skips_comments_and_trims_lines() {
    let chunk = b": OPENROUTER PROCESSING\r\n\r\n   data: {\"choices\":[{\"delta\":{\"content\":\"a\\nb\"}}]}  \r\n";
    assert_eq!(delta(parse_upstream_chunk(chunk)), Some("a\nb".to_string()));
}

#[test]
fn upstream_chunk_without_content_is_the_end() {
    assert!(delta(parse_upstream_chunk(b"data: {\"choices\":[{\"delta\":{}}]}\n")).is_none());
    assert!(delta(parse_upstream_chunk(b"")).is_none());
    assert!(delta(parse_upstream_chunk(b"data: not json\n")).is_none());
}

#[test]
fn upstream_chunk_first_announcing_line_wins() {
    let chunk = b"data: {\"x\":1}\ndata: {\"choices\":[{\"delta\":{\"content\":\"first\"}}]}\ndata: [DONE]\n";
    assert_eq!(delta(parse_upstream_chunk(chunk)), Some("first".to_string()));
    let chunk = b"data: [DONE]\ndata: {\"choices\":[{\"delta\":{\"content\":\"late\"}}]}\n";
    assert!(delta(parse_upstream_chunk(chunk)).is_none());
}

#[test]
fn upstream_chunk_invalid_utf8_is_decoded_lossily() {
    let mut chunk = b"data: {\"choices\":[{\"delta\":{\"content\":\"".to_vec();
    chunk.push(0xff);
    chunk.extend_from_slice(b"\"}}]}\n");
    assert_eq!(delta(parse_upstream_chunk(&chunk)), Some("\u{fffd}".to_string()));
}
