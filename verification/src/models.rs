//! The records the store keeps: conversations and their messages.
use vstd::prelude::*;

verus! {

/// A chat conversation. Times are microseconds since the Unix epoch.
#[derive(Debug)]
pub struct Conversation {
    pub id: String,
    pub title: String,
    pub created_at: i64,
    pub updated_at: i64,
}

/// The mathematical value of a [`Conversation`].
pub struct ConversationView {
    pub id: Seq<char>,
    pub title: Seq<char>,
    pub created_at: int,
    pub updated_at: int,
}

impl View for Conversation {
    type V = ConversationView;

    open spec fn view(&self) -> ConversationView {
        ConversationView {
            id: self.id@,
            title: self.title@,
            created_at: self.created_at as int,
            updated_at: self.updated_at as int,
        }
    }
}

impl Clone for Conversation {
    fn clone(&self) -> (c: Self)
        ensures
            c@ == self@,
    {
        Conversation {
            id: self.id.clone(),
            title: self.title.clone(),
            created_at: self.created_at,
            updated_at: self.updated_at,
        }
    }
}

/// One message of a conversation; `role` is `user` or `assistant`.
#[derive(Debug)]
pub struct Message {
    pub id: String,
    pub conversation_id: String,
    pub role: String,
    pub content: String,
    pub created_at: i64,
}

/// The mathematical value of a [`Message`].
pub struct MessageView {
    pub id: Seq<char>,
    pub conversation_id: Seq<char>,
    pub role: Seq<char>,
    pub content: Seq<char>,
    pub created_at: int,
}

impl View for Message {
    type V = MessageView;

    open spec fn view(&self) -> MessageView {
        MessageView {
            id: self.id@,
            conversation_id: self.conversation_id@,
            role: self.role@,
            content: self.content@,
            created_at: self.created_at as int,
        }
    }
}

impl Clone for Message {
    fn clone(&self) -> (m: Self)
        ensures
            m@ == self@,
    {
        Message {
            id: self.id.clone(),
            conversation_id: self.conversation_id.clone(),
            role: self.role.clone(),
            content: self.content.clone(),
            created_at: self.created_at,
        }
    }
}

} // verus!
