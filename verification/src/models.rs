//! Canonical message representation shared by all provider adapters.

use vstd::prelude::*;

verus! {

/// Mathematical model of one chat message.
pub ghost struct ChatMessageView {
    pub role: Seq<char>,
    pub content: Seq<char>,
}

/// One canonical chat message: a role (`"system"`, `"user"` or
/// `"assistant"`) and its text content.
#[derive(Debug, Clone)]
pub struct ChatMessage {
    pub role: String,
    pub content: String,
}

impl View for ChatMessage {
    type V = ChatMessageView;

    open spec fn view(&self) -> ChatMessageView {
        ChatMessageView { role: self.role@, content: self.content@ }
    }
}

impl ChatMessage {
    /// Builds a message from a role and content.
    pub fn new(role: &str, content: &str) -> (r: ChatMessage)
        ensures
            r@.role == role@,
            r@.content == content@,
    {
        ChatMessage { role: role.to_owned(), content: content.to_owned() }
    }

    /// Builds a `"user"` message.
    pub fn user(content: &str) -> (r: ChatMessage)
        ensures
            r@.role == "user"@,
            r@.content == content@,
    {
        ChatMessage::new("user", content)
    }
}

/// Mathematical model of one canonical request.
pub ghost struct ChatRequestView {
    pub model: Seq<char>,
    pub messages: Seq<ChatMessageView>,
    pub stream: Option<bool>,
}

/// The canonical, provider-agnostic request: a model name, the ordered
/// conversation, and an optional streaming flag.
#[derive(Debug, Clone)]
pub struct ChatRequest {
    pub model: String,
    pub messages: Vec<ChatMessage>,
    pub stream: Option<bool>,
}

impl View for ChatRequest {
    type V = ChatRequestView;

    open spec fn view(&self) -> ChatRequestView {
        ChatRequestView {
            model: self.model@,
            messages: self.messages@.map_values(|m: ChatMessage| m@),
            stream: self.stream,
        }
    }
}

} // verus!
