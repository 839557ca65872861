//! Chat messages as the roost stores and serves them.

use vstd::prelude::*;

verus! {

/// One chat message: a unique id, its author, its text and its timestamp in
/// milliseconds.
#[derive(Clone, Debug)]
pub struct ChatMessage {
    pub id: String,
    pub author: String,
    pub body: String,
    pub ts: i64,
}

/// The value of a chat message, by the views of its fields.
pub struct MessageView {
    pub id: Seq<char>,
    pub author: Seq<char>,
    pub body: Seq<char>,
    pub ts: i64,
}

impl View for ChatMessage {
    type V = MessageView;

    open spec fn view(&self) -> MessageView {
        MessageView { id: self.id@, author: self.author@, body: self.body@, ts: self.ts }
    }
}

impl ChatMessage {
    /// Copies the message field by field.
    pub fn duplicate(&self) -> (r: ChatMessage)
        ensures
            r@ == self@,
    {
        ChatMessage {
            id: self.id.clone(),
            author: self.author.clone(),
            body: self.body.clone(),
            ts: self.ts,
        }
    }
}

} // verus!
