//! Core message types for chat-completion requests and responses.
use vstd::prelude::*;

use crate::text::push_str;

verus! {

/// Role of a message sender in a chat conversation.
#[derive(Debug, Clone, Copy, PartialEq, Eq, Structural)]
pub enum MessageRole {
    /// System-level instruction message.
    System,
    /// User input message.
    User,
    /// Assistant response message.
    Assistant,
    /// Tool/function result message.
    Tool,
}

/// The lowercase wire name of a role.
pub open spec fn role_name(r: MessageRole) -> Seq<char> {
    match r {
        MessageRole::System => "system"@,
        MessageRole::User => "user"@,
        MessageRole::Assistant => "assistant"@,
        MessageRole::Tool => "tool"@,
    }
}

impl MessageRole {
    /// The lowercase wire name (`"system"`, `"user"`, `"assistant"`, `"tool"`).
    pub fn as_str(&self) -> (s: &'static str)
        ensures
            s@ == role_name(*self),
    {
        match self {
            MessageRole::System => "system",
            MessageRole::User => "user",
            MessageRole::Assistant => "assistant",
            MessageRole::Tool => "tool",
        }
    }

    /// The lowercase wire name as an owned string.
    pub fn to_string(&self) -> (s: String)
        ensures
            s@ == role_name(*self),
    {
        let mut s = String::new();
        push_str(&mut s, self.as_str());
        s
    }
}

/// A single content part in a multimodal chat message.
#[derive(Debug, Clone)]
pub enum ContentPart {
    /// Plain text content.
    Text {
        /// The text string.
        text: String,
    },
    /// Image specified by URL.
    ImageUrl {
        /// URL pointing to the image.
        url: String,
    },
    /// Image specified as base64-encoded data.
    ImageBase64 {
        /// MIME type (e.g. `"image/png"`).
        media_type: String,
        /// Base64-encoded image data.
        data: String,
    },
}

/// The text of a part, if it is a text part.
pub open spec fn part_text(p: ContentPart) -> Option<Seq<char>> {
    match p {
        ContentPart::Text { text } => Some(text@),
        _ => None,
    }
}

/// The texts of the text parts of `parts`, concatenated in order.
pub open spec fn text_of(parts: Seq<ContentPart>) -> Seq<char>
    decreases parts.len(),
{
    if parts.len() == 0 {
        Seq::empty()
    } else {
        text_of(parts.drop_last()) + match part_text(parts.last()) {
            Some(t) => t,
            None => Seq::empty(),
        }
    }
}

impl ContentPart {
    /// Create a text content part.
    pub fn text(s: &str) -> (p: ContentPart)
        ensures
            part_text(p) == Some(s@),
    {
        ContentPart::Text { text: s.to_owned() }
    }

    /// Create an image URL content part.
    pub fn image_url(url: &str) -> (p: ContentPart)
        ensures
            p matches ContentPart::ImageUrl { url: u } && u@ == url@,
    {
        ContentPart::ImageUrl { url: url.to_owned() }
    }

    /// Extract text content, if this is a text part.
    pub fn as_text(&self) -> (r: Option<&str>)
        ensures
            match (r, part_text(*self)) {
                (Some(s), Some(t)) => s@ == t,
                (None, None) => true,
                _ => false,
            },
    {
        match self {
            ContentPart::Text { text } => Some(text.as_str()),
            _ => None,
        }
    }
}

/// The text a message's content is sent as when it is a single text part
/// (the compact wire form); `None` when the parts go as a list.
pub fn single_text(parts: &[ContentPart]) -> (r: Option<&str>)
    ensures
        match r {
            Some(t) => parts@.len() == 1 && part_text(parts@[0]) == Some(t@),
            None => !(parts@.len() == 1 && part_text(parts@[0]) is Some),
        },
{
    if parts.len() == 1 {
        parts[0].as_text()
    } else {
        None
    }
}

/// A single message in a chat conversation.
#[derive(Debug, Clone)]
pub struct ChatMessage {
    /// Role of the message sender.
    pub role: MessageRole,
    /// Content parts (text, images).
    pub content: Vec<ContentPart>,
}

impl ChatMessage {
    /// A message of `role` holding the single text part `content`.
    pub open spec fn is_text(self, role: MessageRole, content: Seq<char>) -> bool {
        &&& self.role == role
        &&& self.content@.len() == 1
        &&& part_text(self.content@[0]) == Some(content)
    }

    /// Create a system message with text content.
    pub fn system(content: &str) -> (m: ChatMessage)
        ensures
            m.is_text(MessageRole::System, content@),
    {
        ChatMessage { role: MessageRole::System, content: vec![ContentPart::text(content)] }
    }

    /// Create a user message with text content.
    pub fn user(content: &str) -> (m: ChatMessage)
        ensures
            m.is_text(MessageRole::User, content@),
    {
        ChatMessage { role: MessageRole::User, content: vec![ContentPart::text(content)] }
    }

    /// Create an assistant message with text content.
    pub fn assistant(content: &str) -> (m: ChatMessage)
        ensures
            m.is_text(MessageRole::Assistant, content@),
    {
        ChatMessage { role: MessageRole::Assistant, content: vec![ContentPart::text(content)] }
    }

    /// Create a tool result message.
    pub fn tool(content: &str) -> (m: ChatMessage)
        ensures
            m.is_text(MessageRole::Tool, content@),
    {
        ChatMessage { role: MessageRole::Tool, content: vec![ContentPart::text(content)] }
    }

    /// Create a user message with multimodal content parts.
    pub fn user_multimodal(parts: Vec<ContentPart>) -> (m: ChatMessage)
        ensures
            m.role == MessageRole::User,
            m.content@ == parts@,
    {
        ChatMessage { role: MessageRole::User, content: parts }
    }

    /// Extract all text from this message's content parts, concatenated.
    pub fn text_content(&self) -> (s: String)
        ensures
            s@ == text_of(self.content@),
    {
        let mut s = String::new();
        let mut i: usize = 0;
        assert(self.content@.take(0) == Seq::<ContentPart>::empty());
        while i < self.content.len()
            invariant
                i <= self.content@.len(),
                s@ == text_of(self.content@.take(i as int)),
            decreases self.content@.len() - i,
        {
            assert(self.content@.take(i + 1).drop_last() == self.content@.take(i as int));
            if let Some(t) = self.content[i].as_text() {
                push_str(&mut s, t);
            }
            i += 1;
        }
        assert(self.content@.take(self.content@.len() as int) == self.content@);
        s
    }
}

/// A message on the wire: its role name and its concatenated text.
pub open spec fn wire_message(m: ChatMessage) -> (Seq<char>, Seq<char>) {
    (role_name(m.role), text_of(m.content@))
}

/// The views of a list of string pairs.
pub open spec fn string_pairs(v: Seq<(String, String)>) -> Seq<(Seq<char>, Seq<char>)> {
    v.map_values(|p: (String, String)| (p.0@, p.1@))
}

fn push_wire_messages(out: &mut Vec<(String, String)>, messages: &[ChatMessage])
    ensures
        string_pairs(final(out)@) == string_pairs(old(out)@) + messages@.map_values(
            |m: ChatMessage| wire_message(m),
        ),
{
    let ghost start = string_pairs(out@);
    let mut i: usize = 0;
    while i < messages.len()
        invariant
            i <= messages@.len(),
            string_pairs(out@) == start + messages@.take(i as int).map_values(
                |m: ChatMessage| wire_message(m),
            ),
        decreases messages@.len() - i,
    {
        let ghost before = out@;
        let role = messages[i].role.to_string();
        let text = messages[i].text_content();
        out.push((role, text));
        assert(string_pairs(out@) == string_pairs(before).push(wire_message(messages@[i as int])));
        assert(messages@.take(i + 1).map_values(|m: ChatMessage| wire_message(m)) == messages@.take(
            i as int,
        ).map_values(|m: ChatMessage| wire_message(m)).push(wire_message(messages@[i as int])));
        i += 1;
    }
    assert(messages@.take(messages@.len() as int) == messages@);
}

/// The wire messages of an OpenAI-style request: the system prompt first as
/// a `system` message when there is one, then each message as its role name
/// and text.
pub fn openai_messages(system: Option<String>, messages: &[ChatMessage]) -> (out: Vec<(String, String)>)
    ensures
        string_pairs(out@) == (match system {
            Some(s) => seq![("system"@, s@)],
            None => Seq::empty(),
        }) + messages@.map_values(|m: ChatMessage| wire_message(m)),
{
    let mut out: Vec<(String, String)> = Vec::new();
    match system {
        Some(s) => {
            out.push(("system".to_owned(), s));
        },
        None => {},
    }
    proof {
        reveal_strlit("system");
    }
    push_wire_messages(&mut out, messages);
    out
}

/// The wire messages of an Anthropic-style request: the messages only (the
/// system prompt travels separately), each as its role name and text.
pub fn anthropic_messages(messages: &[ChatMessage]) -> (out: Vec<(String, String)>)
    ensures
        string_pairs(out@) == messages@.map_values(|m: ChatMessage| wire_message(m)),
{
    let mut out: Vec<(String, String)> = Vec::new();
    assert(string_pairs(out@) == Seq::<(Seq<char>, Seq<char>)>::empty());
    push_wire_messages(&mut out, messages);
    out
}

/// Token usage statistics from an LLM response.
#[derive(Debug, Clone, Copy, PartialEq, Eq, Structural)]
pub struct TokenUsage {
    /// Number of tokens in the prompt.
    pub prompt_tokens: u32,
    /// Number of tokens in the completion.
    pub completion_tokens: u32,
    /// Total tokens (prompt + completion).
    pub total_tokens: u32,
}

impl Default for TokenUsage {
    fn default() -> (u: TokenUsage)
        ensures
            u.prompt_tokens == 0 && u.completion_tokens == 0 && u.total_tokens == 0,
    {
        TokenUsage { prompt_tokens: 0, completion_tokens: 0, total_tokens: 0 }
    }
}

/// A chat completion response from an LLM provider.
#[derive(Debug, Clone)]
pub struct LLMResponse {
    /// Generated text content.
    pub content: String,
    /// The model's reasoning, kept as the provider sent it, when there is any.
    pub reasoning: Option<String>,
    /// Model that produced this response.
    pub model: String,
    /// Token usage statistics.
    pub usage: TokenUsage,
    /// Tool calls the model requested this turn.
    pub tool_calls: Vec<crate::llm::tool::ToolCall>,
    /// Reason the generation stopped (e.g. `"stop"`, `"length"`, `"tool_calls"`).
    pub finish_reason: Option<String>,
    /// Provider-assigned response ID.
    pub id: Option<String>,
    /// Unix timestamp (seconds) when the response was created.
    pub created: Option<u64>,
}

/// A single event in an LLM streaming response.
#[derive(Debug, Clone)]
pub enum StreamEvent {
    /// Partial text content arrived.
    Delta {
        /// The partial text chunk.
        content: String,
    },
    /// Partial reasoning text arrived. A reasoning model that answers only in
    /// its reasoning streams the answer here, so a consumer that wants the
    /// answer accumulates both these and [`StreamEvent::Delta`] pieces.
    ReasoningDelta {
        /// The partial reasoning chunk.
        content: String,
    },
    /// Final token usage statistics.
    Usage(TokenUsage),
    /// Stream has ended.
    Done,
}

} // verus!
