//! Requests on the messages of a conversation: each first checks that the
//! conversation exists.
use vstd::prelude::*;
use crate::error::{is_bad_request, is_database_error, is_not_found, AppError};
use crate::models::Message;
use crate::repository::model::{
    after_create_message, after_delete_message, conversation_missing, has_conversation,
    has_message, has_message_id, message_id_taken, message_missing, messages_of, new_message,
};
use crate::repository::{message_views, uuid_v4_text, Repository};
use crate::validation::{content_refusal, validate_message_content};

verus! {

/// The body of a request to add a message.
pub struct CreateMessageRequest {
    pub content: String,
}

/// The messages of the conversation `conversation_id`, oldest first;
/// `NotFound` when there is no such conversation.
pub fn list_messages(repo: &Repository, conversation_id: &str) -> (r: Result<Vec<Message>, AppError>)
    requires
        repo@.wf(),
    ensures
        has_conversation(repo@.conversations, conversation_id@) ==> (r matches Ok(ms)
            && message_views(ms@) == messages_of(repo@, conversation_id@)),
        !has_conversation(repo@.conversations, conversation_id@) ==> is_not_found(
            r,
            conversation_missing(conversation_id@),
        ),
{
    repo.get_conversation(conversation_id)?;
    Ok(repo.list_messages(conversation_id))
}

/// Adds a user message, created at `now` with the UUID made from `random`
/// as its id, to the conversation `conversation_id`: the content must pass
/// [`validate_message_content`]; `NotFound` when there is no such
/// conversation.
pub fn create_message(
    repo: &mut Repository,
    conversation_id: &str,
    body: CreateMessageRequest,
    random: [u8; 16],
    now: i64,
) -> (r: Result<Message, AppError>)
    requires
        old(repo)@.wf(),
    ensures
        final(repo)@.wf(),
        match content_refusal(body.content@) {
            Some(msg) => is_bad_request(r, msg) && final(repo)@ == old(repo)@,
            None => if !has_conversation(old(repo)@.conversations, conversation_id@) {
                is_not_found(r, conversation_missing(conversation_id@))
                    && final(repo)@ == old(repo)@
            } else if has_message_id(old(repo)@.messages, uuid_v4_text(random@)) {
                is_database_error(r, message_id_taken()) && final(repo)@ == old(repo)@
            } else {
                r matches Ok(m) && m@ == new_message(
                    uuid_v4_text(random@),
                    conversation_id@,
                    "user"@,
                    body.content@,
                    now as int,
                ) && final(repo)@ == after_create_message(old(repo)@, m@)
            },
        },
        content_refusal(body.content@) is None && has_conversation(
            old(repo)@.conversations,
            conversation_id@,
        ) && (forall|i: int|
            0 <= i < old(repo)@.messages.len() ==> (#[trigger] old(repo)@.messages[i]).id.len()
                != 36) ==> r is Ok,
{
    validate_message_content(body.content.as_str())?;
    repo.get_conversation(conversation_id)?;
    let r = repo.create_message(conversation_id, "user", body.content.as_str(), random, now);
    proof {
        reveal_strlit("user");
    }
    r
}

/// Deletes the message `message_id` of the conversation `conversation_id`;
/// `NotFound` when either does not exist.
pub fn delete_message(repo: &mut Repository, conversation_id: &str, message_id: &str) -> (r: Result<
    (),
    AppError,
>)
    requires
        old(repo)@.wf(),
    ensures
        final(repo)@.wf(),
        !has_conversation(old(repo)@.conversations, conversation_id@) ==> is_not_found(
            r,
            conversation_missing(conversation_id@),
        ) && final(repo)@ == old(repo)@,
        has_conversation(old(repo)@.conversations, conversation_id@) && !has_message(
            old(repo)@.messages,
            conversation_id@,
            message_id@,
        ) ==> is_not_found(r, message_missing(message_id@)) && final(repo)@ == old(repo)@,
        has_conversation(old(repo)@.conversations, conversation_id@) && has_message(
            old(repo)@.messages,
            conversation_id@,
            message_id@,
        ) ==> r is Ok && final(repo)@ == after_delete_message(
            old(repo)@,
            conversation_id@,
            message_id@,
        ),
{
    repo.get_conversation(conversation_id)?;
    repo.delete_message(conversation_id, message_id)
}

} // verus!
