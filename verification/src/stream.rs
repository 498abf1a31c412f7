//! The stream collector. A completion response arrives as tagged chunks:
//! reasoning fragments, content fragments, and exactly one final message,
//! always last. This state machine decides, chunk by chunk, which banners
//! and fragments to show and remembers the final message; the caller
//! performs the printing and races the chunk source against cancellation.

use vstd::prelude::*;
use vstd::string::StringSliceAdditionalSpecFns;

verus! {

/// A committed assistant message: its id, when the service gave one, and
/// its accumulated text.
pub struct FinalMessage {
    pub id: Option<i64>,
    pub text: Vec<u8>,
}

/// One unit of a streaming completion response.
pub enum Chunk {
    Thinking(Vec<u8>),
    Content(Vec<u8>),
    Message(FinalMessage),
}

/// What the caller should show for one chunk, in order.
pub enum StreamEffect {
    ThinkingBanner,
    EndThinkingBanner,
    ResponseBanner,
    ThoughtText(Vec<u8>),
    ContentText(Vec<u8>),
    Newline,
}

/// The collector's state across one streamed response.
pub struct StreamDisplay {
    pub thinking_started: bool,
    pub content_started: bool,
    pub finished: Option<FinalMessage>,
}

/// The state after one chunk: flags latch on, and only a final-message
/// chunk sets `finished`.
pub open spec fn stream_next_spec(st: StreamDisplay, chunk: Chunk) -> StreamDisplay {
    match chunk {
        Chunk::Thinking(_) => StreamDisplay {
            thinking_started: true,
            content_started: st.content_started,
            finished: st.finished,
        },
        Chunk::Content(_) => StreamDisplay {
            thinking_started: st.thinking_started,
            content_started: true,
            finished: st.finished,
        },
        Chunk::Message(m) => StreamDisplay {
            thinking_started: st.thinking_started,
            content_started: st.content_started,
            finished: Some(m),
        },
    }
}

/// The effects of one chunk: a thinking banner before the first
/// reasoning fragment; the end-of-thinking and response banners before
/// the first content fragment; the end-of-thinking banner and a final
/// newline when the message closes a reasoning-only stream.
pub open spec fn stream_effects_spec(st: StreamDisplay, chunk: Chunk) -> Seq<StreamEffect> {
    match chunk {
        Chunk::Thinking(t) => if !st.thinking_started {
            seq![StreamEffect::ThinkingBanner, StreamEffect::ThoughtText(t)]
        } else {
            seq![StreamEffect::ThoughtText(t)]
        },
        Chunk::Content(t) => if !st.content_started {
            if st.thinking_started {
                seq![
                    StreamEffect::EndThinkingBanner,
                    StreamEffect::ResponseBanner,
                    StreamEffect::ContentText(t),
                ]
            } else {
                seq![StreamEffect::ResponseBanner, StreamEffect::ContentText(t)]
            }
        } else {
            seq![StreamEffect::ContentText(t)]
        },
        Chunk::Message(_) => if st.thinking_started && !st.content_started {
            seq![StreamEffect::EndThinkingBanner, StreamEffect::Newline]
        } else {
            seq![StreamEffect::Newline]
        },
    }
}

/// A fresh collector: nothing shown, nothing finished.
pub fn stream_start() -> (st: StreamDisplay)
    ensures
        !st.thinking_started,
        !st.content_started,
        st.finished is None,
{
    StreamDisplay { thinking_started: false, content_started: false, finished: None }
}

/// Consume one chunk: update the state and say what to show.
pub fn stream_step(st: &mut StreamDisplay, chunk: Chunk) -> (effects: Vec<StreamEffect>)
    ensures
        *final(st) == stream_next_spec(*old(st), chunk),
        effects@ == stream_effects_spec(*old(st), chunk),
{
    let mut effects: Vec<StreamEffect> = Vec::new();
    match chunk {
        Chunk::Thinking(t) => {
            if !st.thinking_started {
                effects.push(StreamEffect::ThinkingBanner);
                st.thinking_started = true;
            }
            effects.push(StreamEffect::ThoughtText(t));
        },
        Chunk::Content(t) => {
            if !st.content_started {
                if st.thinking_started {
                    effects.push(StreamEffect::EndThinkingBanner);
                }
                effects.push(StreamEffect::ResponseBanner);
                st.content_started = true;
            }
            effects.push(StreamEffect::ContentText(t));
        },
        Chunk::Message(m) => {
            if st.thinking_started && !st.content_started {
                effects.push(StreamEffect::EndThinkingBanner);
            }
            st.finished = Some(m);
            effects.push(StreamEffect::Newline);
        },
    }
    proof {
        assert(effects@ =~= stream_effects_spec(*old(st), chunk));
    }
    effects
}

/// The notice shown when the user interrupts an active stream.
pub open spec fn msg_interrupted() -> Seq<u8> {
    "Stream interrupted by user".spec_bytes()
}

pub fn interruption_notice() -> (r: Vec<u8>)
    ensures
        r@ == msg_interrupted(),
{
    let mut out: Vec<u8> = Vec::new();
    crate::text::push_all(&mut out, "Stream interrupted by user".as_bytes());
    out
}

} // verus!
