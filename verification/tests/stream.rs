use agentloop::stream::{
    Chunk, FinalMessage, StreamEffect, stream_start, stream_step, interruption_notice,
};

fn b(s: &str) -> Vec<u8> {
    s.as_bytes().to_vec()
}

#[test]
fn thinking_banner_appears_once() {
    let mut st = stream_start();
    let e1 = stream_step(&mut st, Chunk::Thinking(b("a")));
    assert!(matches!(e1[0], StreamEffect::ThinkingBanner));
    assert!(matches!(&e1[1], StreamEffect::ThoughtText(t) if *t == b("a")));
    assert_eq!(e1.len(), 2);
    let e2 = stream_step(&mut st, Chunk::Thinking(b("b")));
    assert_eq!(e2.len(), 1);
    assert!(matches!(&e2[0], StreamEffect::ThoughtText(t) if *t == b("b")));
}

#[test]
fn content_after_thinking_closes_the_thinking_section() {
    let mut st = stream_start();
    stream_step(&mut st, Chunk::Thinking(b("t")));
    let e = stream_step(&mut st, Chunk::Content(b("c")));
    assert_eq!(e.len(), 3);
    assert!(matches!(e[0], StreamEffect::EndThinkingBanner));
    assert!(matches!(e[1], StreamEffect::ResponseBanner));
    assert!(matches!(&e[2], StreamEffect::ContentText(t) if *t == b("c")));
}

#[test]
fn content_without_thinking_shows_only_the_response_banner() {
    let mut st = stream_start();
    let e = stream_step(&mut st, Chunk::Content(b("c")));
    assert_eq!(e.len(), 2);
    assert!(matches!(e[0], StreamEffect::ResponseBanner));
    let e2 = stream_step(&mut st, Chunk::Content(b("d")));
    assert_eq!(e2.len(), 1);
}

#[test]
fn message_after_thinking_only_still_closes_the_section() {
    let mut st = stream_start();
    stream_step(&mut st, Chunk::Thinking(b("t")));
    let e = stream_step(&mut st, Chunk::Message(FinalMessage { id: Some(4), text: b("x") }));
    assert_eq!(e.len(), 2);
    assert!(matches!(e[0], StreamEffect::EndThinkingBanner));
    assert!(matches!(e[1], StreamEffect::Newline));
    match &st.finished {
        Some(m) => {
            assert_eq!(m.id, Some(4));
            assert_eq!(m.text, b("x"));
        },
        None => panic!("expected a finished message"),
    }
}

#[test]
fn message_after_content_adds_only_a_newline() {
    let mut st = stream_start();
    stream_step(&mut st, Chunk::Content(b("c")));
    let e = stream_step(&mut st, Chunk::Message(FinalMessage { id: None, text: b("c") }));
    assert_eq!(e.len(), 1);
    assert!(matches!(e[0], StreamEffect::Newline));
}

#[test]
fn interruption_notice_text() {
    assert_eq!(interruption_notice(), b("Stream interrupted by user"));
}
