//! Requests on conversations: creating one (with a default title) and
//! renaming one.
use vstd::prelude::*;
use crate::error::{is_bad_request, is_database_error, is_not_found, AppError};
use crate::models::Conversation;
use crate::repository::model::{
    after_create_conversation, after_update_conversation, conversation_id_taken,
    conversation_index, conversation_missing, has_conversation, new_conversation, touched,
};
use crate::repository::{uuid_v4_text, Repository};
use crate::validation::{opt_view, title_refusal, validate_create_conversation};

verus! {

/// The body of a request to create a conversation.
pub struct CreateConversationRequest {
    pub title: Option<String>,
}

/// The body of a request to rename a conversation.
pub struct UpdateConversationRequest {
    pub title: Option<String>,
}

/// The title a new conversation gets: the one given, or `New Chat`.
pub open spec fn chosen_title(title: Option<Seq<char>>) -> Seq<char> {
    match title {
        Some(t) => t,
        None => "New Chat"@,
    }
}

/// Creates a conversation created at `now` whose id is the UUID made from
/// `random`: the title, when given, must pass [`validate_create_conversation`];
/// without one the conversation is called `New Chat`.
pub fn create_conversation(
    repo: &mut Repository,
    body: CreateConversationRequest,
    random: [u8; 16],
    now: i64,
) -> (r: Result<Conversation, AppError>)
    requires
        old(repo)@.wf(),
    ensures
        final(repo)@.wf(),
        match title_refusal(opt_view(body.title)) {
            Some(msg) => is_bad_request(r, msg) && final(repo)@ == old(repo)@,
            None => if has_conversation(old(repo)@.conversations, uuid_v4_text(random@)) {
                is_database_error(r, conversation_id_taken()) && final(repo)@ == old(repo)@
            } else {
                r matches Ok(c) && c@ == new_conversation(
                    uuid_v4_text(random@),
                    chosen_title(opt_view(body.title)),
                    now as int,
                ) && final(repo)@ == after_create_conversation(old(repo)@, c@)
            },
        },
        title_refusal(opt_view(body.title)) is None && (forall|i: int|
            0 <= i < old(repo)@.conversations.len()
                ==> (#[trigger] old(repo)@.conversations[i]).id.len() != 36) ==> r is Ok,
{
    validate_create_conversation(&body.title)?;
    let title = match body.title {
        Some(t) => t,
        None => String::from_str("New Chat"),
    };
    repo.create_conversation(title.as_str(), random, now)
}

/// Renames the conversation `id` and sets its update time to `now`: the
/// title must be given and pass [`validate_create_conversation`]; `NotFound`
/// when there is no such conversation.
pub fn update_conversation(
    repo: &mut Repository,
    id: &str,
    body: UpdateConversationRequest,
    now: i64,
) -> (r: Result<Conversation, AppError>)
    requires
        old(repo)@.wf(),
    ensures
        final(repo)@.wf(),
        match title_refusal(opt_view(body.title)) {
            Some(msg) => is_bad_request(r, msg) && final(repo)@ == old(repo)@,
            None => match opt_view(body.title) {
                None => is_bad_request(r, "Conversation title is required"@) && final(repo)@
                    == old(repo)@,
                Some(t) => if has_conversation(old(repo)@.conversations, id@) {
                    r matches Ok(c) && c@ == touched(
                        old(repo)@.conversations[conversation_index(
                            old(repo)@.conversations,
                            id@,
                        )],
                        Some(t),
                        now as int,
                    ) && final(repo)@ == after_update_conversation(
                        old(repo)@,
                        id@,
                        Some(t),
                        now as int,
                    )
                } else {
                    is_not_found(r, conversation_missing(id@)) && final(repo)@ == old(repo)@
                },
            },
        },
{
    validate_create_conversation(&body.title)?;
    match &body.title {
        None => Err(AppError::BadRequest(String::from_str("Conversation title is required"))),
        Some(t) => repo.update_conversation(id, Some(t.as_str()), now),
    }
}

} // verus!
