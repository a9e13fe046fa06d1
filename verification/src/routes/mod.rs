pub mod chat;
pub mod conversations;
pub mod messages;
