use lift_proxy::chat::{classify_chunk, wants_stream, ChatResponse, Choice, Delta, StreamChunk, StreamLine};
use lift_proxy::env::Env;
use lift_proxy::text::decimal_string;

#[test]
fn chunk_classification() {
    assert!(matches!(classify_chunk("data: [DONE]"), StreamLine::Done));
    assert!(matches!(classify_chunk(": ping"), StreamLine::Skip));
    assert!(matches!(classify_chunk("data:"), StreamLine::Skip));
    match classify_chunk("data: {\"a\":1}") {
        StreamLine::Payload(p) => assert_eq!(p, "{\"a\":1}"),
        _ => panic!("expected a payload"),
    }
    match classify_chunk("data: ") {
        StreamLine::Payload(p) => assert_eq!(p, ""),
        _ => panic!("expected a payload"),
    }
}

#[test]
fn first_delta_content() {
    let delta = Delta { role: None, content: "hi".to_string(), finish_reason: None, match_stop: None };
    let chunk = StreamChunk { id: None, object: None, created: None, model: None, choices: vec![Choice { index: Some(0), delta: Some(delta), message: None }] };
    assert_eq!(chunk.first_content(), Some("hi".to_string()));
    let empty = StreamChunk { id: None, object: None, created: None, model: None, choices: vec![] };
    assert_eq!(empty.first_content(), None);
}

#[test]
fn collapsed_reply_shape() {
    let r = ChatResponse::assistant_reply("hello world".to_string());
    assert!(r.id.is_none() && r.model.is_none());
    assert_eq!(r.choices.len(), 1);
    let c = &r.choices[0];
    assert_eq!(c.index, Some(0));
    assert!(c.delta.is_none());
    let m = c.message.as_ref().unwrap();
    assert_eq!(m.role.as_deref(), Some("assistant"));
    assert_eq!(m.content, "hello world");
    assert_eq!(m.finish_reason.as_deref(), Some("stop"));
}

#[test]
fn stream_request_flag() {
    assert!(wants_stream(Some(true)));
    assert!(!wants_stream(Some(false)));
    assert!(!wants_stream(None));
}

#[test]
fn inbound_authorization() {
    let env = Env { database_url: String::new(), webshare_token: String::new(), auth_secret: "s3".to_string() };
    assert!(env.authorizes(Some("Bearer s3")));
    assert!(env.authorizes(Some("Bearer Bearer s3")));
    assert!(!env.authorizes(Some("Bearer s4")));
    assert!(!env.authorizes(Some("bearer s3")));
    assert!(!env.authorizes(Some("s3")));
    assert!(!env.authorizes(None));
}

#[test]
fn decimal_rendering() {
    assert_eq!(decimal_string(0), "0");
    assert_eq!(decimal_string(7), "7");
    assert_eq!(decimal_string(1234567890), "1234567890");
    assert_eq!(decimal_string(u64::MAX), "18446744073709551615");
}
