//! Chat payloads and the collapsing of a streamed reply into one message, for
//! callers that did not ask for a stream.
use vstd::prelude::*;
use crate::text::same_text;

verus! {

pub struct ChatMessage {
    pub role: String,
    pub content: String,
}

pub struct Delta {
    pub role: Option<String>,
    pub content: String,
    pub finish_reason: Option<String>,
    pub match_stop: Option<i32>,
}

pub struct Choice {
    pub index: Option<i32>,
    pub delta: Option<Delta>,
    pub message: Option<Delta>,
}

/// One event of a streamed chat reply.
pub struct StreamChunk {
    pub id: Option<String>,
    pub object: Option<String>,
    pub created: Option<i32>,
    pub model: Option<String>,
    pub choices: Vec<Choice>,
}

/// A complete, non-streamed chat reply.
pub struct ChatResponse {
    pub id: Option<String>,
    pub object: Option<String>,
    pub created: Option<i32>,
    pub model: Option<String>,
    pub choices: Vec<Choice>,
}

/// What one chunk of a streamed reply holds.
pub enum StreamLine {
    /// Not a data line: ignored.
    Skip,
    /// The end-of-stream marker.
    Done,
    /// The JSON text of one event.
    Payload(String),
}

pub open spec fn data_prefix() -> Seq<char> {
    "data: "@
}

pub open spec fn is_data_line(t: Seq<char>) -> bool {
    t.len() >= 6 && t.subrange(0, 6) == data_prefix()
}

/// Classifies one chunk of a streamed reply: a data line is `data: ` followed by
/// either the end marker `[DONE]` or an event; anything else is skipped.
pub fn classify_chunk(text: &str) -> (r: StreamLine)
    ensures
        !is_data_line(text@) ==> r is Skip,
        is_data_line(text@) && text@.subrange(6, text@.len() as int) == "[DONE]"@ ==> r is Done,
        is_data_line(text@) && text@.subrange(6, text@.len() as int) != "[DONE]"@ ==> (match r {
            StreamLine::Payload(p) => p@ == text@.subrange(6, text@.len() as int),
            _ => false,
        }),
{
    proof {
        reveal_strlit("data: ");
    }
    let n = text.unicode_len();
    if n < 6 {
        return StreamLine::Skip;
    }
    let head = text.substring_char(0, 6);
    if !same_text(head, "data: ") {
        return StreamLine::Skip;
    }
    let rest = text.substring_char(6, n);
    if same_text(rest, "[DONE]") {
        StreamLine::Done
    } else {
        StreamLine::Payload(String::from_str(rest))
    }
}

impl StreamChunk {
    /// The content of the first choice's delta, if the event has one.
    pub fn first_content(&self) -> (r: Option<String>)
        ensures
            self.choices@.len() == 0 ==> r is None,
            self.choices@.len() > 0 ==> (match self.choices@[0].delta {
                Some(d) => r == Some(d.content),
                None => r is None,
            }),
    {
        if self.choices.len() == 0 {
            return None;
        }
        match &self.choices[0].delta {
            Some(d) => Some(d.content.clone()),
            None => None,
        }
    }
}

impl ChatResponse {
    /// The single-message reply that a collapsed stream turns into: one choice at
    /// index 0 whose message is the assistant's `content`, finished with "stop".
    pub fn assistant_reply(content: String) -> (r: ChatResponse)
        ensures
            r.id is None && r.object is None && r.created is None && r.model is None,
            r.choices@.len() == 1,
            r.choices@[0].index == Some(0i32),
            r.choices@[0].delta is None,
            (match r.choices@[0].message {
                Some(m) => {
                    &&& m.role matches Some(role) && role@ == "assistant"@
                    &&& m.content == content
                    &&& m.match_stop is None
                    &&& m.finish_reason matches Some(f) && f@ == "stop"@
                },
                None => false,
            }),
    {
        let message = Delta {
            role: Some(String::from_str("assistant")),
            content,
            match_stop: None,
            finish_reason: Some(String::from_str("stop")),
        };
        let choice = Choice { delta: None, index: Some(0), message: Some(message) };
        ChatResponse { id: None, choices: vec![choice], model: None, object: None, created: None }
    }
}

/// Whether the caller asked for a streamed reply; absent means no.
pub fn wants_stream(stream: Option<bool>) -> (r: bool)
    ensures
        r == (stream == Some(true)),
{
    match stream {
        Some(b) => b,
        None => false,
    }
}

} // verus!
