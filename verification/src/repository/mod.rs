//! The conversation store: conversations, each with its messages, kept in the
//! order in which they are listed.
//!
//! Conversations are listed most recently updated first; among equal update
//! times the one updated last comes first. Messages are listed oldest first;
//! among equal creation times, in the order they were stored. Every message
//! belongs to a stored conversation, and deleting a conversation deletes its
//! messages.
pub mod laws;
pub mod model;

use vstd::prelude::*;
use crate::error::{AppError, is_database_error, is_not_found};
use crate::models::{Conversation, ConversationView, Message, MessageView};
use crate::repository::model::{
    StoreState, after_create_conversation, after_create_message, after_create_pair,
    after_delete_conversation, after_delete_message, after_update_conversation,
    conversation_id_taken, conversation_index, conversation_missing, conversations_wf,
    created_no_later, foreign_key_failed, has_conversation, has_message, has_message_id,
    in_conversation, lemma_filter_ordered, lemma_insert_has, lemma_messages_wf_more,
    lemma_place_conversation, lemma_place_message, lemma_place_message_has, lemma_remove_has,
    lemma_remove_wf, lookup_conversation, lookup_message, message_id_taken, message_index,
    message_missing, messages_of, messages_ordered, new_conversation, new_message,
    outside_conversation, place_conversation, place_message, splits_at, touched, updated_after,
};
use crate::validation::opt_str_view;

verus! {

// ---------------------------------------------------------------------------
// The store
// ---------------------------------------------------------------------------

/// The conversation store.
pub struct Repository {
    conversations: Vec<Conversation>,
    messages: Vec<Message>,
}

/// The views of a sequence of conversations.
pub open spec fn conversation_views(s: Seq<Conversation>) -> Seq<ConversationView> {
    s.map_values(|c: Conversation| c@)
}

/// The views of a sequence of messages.
pub open spec fn message_views(s: Seq<Message>) -> Seq<MessageView> {
    s.map_values(|m: Message| m@)
}

impl View for Repository {
    type V = StoreState;

    closed spec fn view(&self) -> StoreState {
        StoreState {
            conversations: conversation_views(self.conversations@),
            messages: message_views(self.messages@),
        }
    }
}

fn missing(what: &str, id: &str) -> (e: AppError)
    ensures
        e matches AppError::NotFound(m) && m@ == what@ + " "@ + id@ + " not found"@,
{
    let mut m = String::from_str(what);
    m.append(" ");
    m.append(id);
    m.append(" not found");
    AppError::NotFound(m)
}

/// The text of the version-4 UUID built from the sixteen bytes `random`.
pub uninterp spec fn uuid_v4_text(random: Seq<u8>) -> Seq<char>;

/// `uuid::Builder::from_random_bytes`, which sets the version and variant
/// bits of the given bytes, then `Uuid`'s `Display` impl, which writes the
/// lower-case hyphenated form: 32 hex digits and 4 hyphens. Which characters
/// come out is named by [`uuid_v4_text`], not stated.
#[verifier::external_body]
fn uuid_text(random: [u8; 16]) -> (id: String)
    ensures
        id@ == uuid_v4_text(random@),
        id@.len() == 36,
{
    uuid::Builder::from_random_bytes(random).into_uuid().to_string()
}

/// A fresh id for a conversation or a message, made from sixteen random
/// bytes that the caller draws: a version-4 UUID in its 36-character form.
pub fn new_id(random: [u8; 16]) -> (id: String)
    ensures
        id@ == uuid_v4_text(random@),
        id@.len() == 36,
{
    uuid_text(random)
}

/// The messages of `msgs` that belong (`same`) or do not belong (`!same`) to
/// the conversation `cid`, in order.
fn select_messages(msgs: &Vec<Message>, cid: &str, same: bool) -> (r: Vec<Message>)
    ensures
        message_views(r@) == message_views(msgs@).filter(
            if same {
                in_conversation(cid@)
            } else {
                outside_conversation(cid@)
            },
        ),
{
    let ghost pred = if same {
        in_conversation(cid@)
    } else {
        outside_conversation(cid@)
    };
    let ghost all = message_views(msgs@);
    let mut out: Vec<Message> = Vec::new();
    let mut i: usize = 0;
    while i < msgs.len()
        invariant
            i <= msgs.len(),
            all == message_views(msgs@),
            pred == (if same {
                in_conversation(cid@)
            } else {
                outside_conversation(cid@)
            }),
            message_views(out@) == all.take(i as int).filter(pred),
        decreases msgs.len() - i,
    {
        proof {
            reveal(Seq::filter);
            assert(all.take(i + 1).drop_last() =~= all.take(i as int));
            assert(all.take(i + 1).last() == msgs@[i as int]@);
        }
        let belongs = msgs[i].conversation_id.as_str().eq(cid);
        if belongs == same {
            let m = msgs[i].clone();
            let ghost before = out@;
            out.push(m);
            proof {
                assert(message_views(out@) =~= message_views(before).push(m@));
            }
        }
        i = i + 1;
    }
    assert(all.take(i as int) =~= all);
    out
}

impl Clone for Repository {
    /// A copy of the store, holding the same conversations and messages.
    fn clone(&self) -> (r: Self)
        ensures
            r@ == self@,
    {
        let conversations = self.list_conversations();
        let mut messages: Vec<Message> = Vec::new();
        let mut i: usize = 0;
        while i < self.messages.len()
            invariant
                i <= self.messages.len(),
                message_views(messages@) == message_views(self.messages@).take(i as int),
            decreases self.messages.len() - i,
        {
            let m = self.messages[i].clone();
            let ghost before = messages@;
            messages.push(m);
            proof {
                assert(message_views(messages@) =~= message_views(before).push(m@));
                assert(message_views(self.messages@).take(i + 1) =~= message_views(
                    self.messages@,
                ).take(i as int).push(self.messages@[i as int]@));
            }
            i = i + 1;
        }
        assert(message_views(self.messages@).take(i as int) =~= message_views(self.messages@));
        Repository { conversations, messages }
    }
}

impl Repository {
    /// An empty store.
    pub fn new() -> (r: Repository)
        ensures
            r@.conversations == Seq::<ConversationView>::empty(),
            r@.messages == Seq::<MessageView>::empty(),
            r@.wf(),
    {
        let r = Repository { conversations: Vec::new(), messages: Vec::new() };
        assert(r@.conversations =~= Seq::<ConversationView>::empty());
        assert(r@.messages =~= Seq::<MessageView>::empty());
        r
    }

    /// The position of the conversation `id` in the listing.
    fn find_conversation(&self, id: &str) -> (r: Option<usize>)
        requires
            self@.wf(),
        ensures
            match r {
                Some(i) => i < self@.conversations.len() && i == conversation_index(
                    self@.conversations,
                    id@,
                ) && has_conversation(self@.conversations, id@),
                None => !has_conversation(self@.conversations, id@),
            },
    {
        let mut i: usize = 0;
        while i < self.conversations.len()
            invariant
                self@.wf(),
                i <= self.conversations.len(),
                forall|j: int| 0 <= j < i ==> (#[trigger] self@.conversations[j]).id != id@,
            decreases self.conversations.len() - i,
        {
            assert(self@.conversations[i as int] == self.conversations@[i as int]@);
            if self.conversations[i].id.as_str().eq(id) {
                let ghost s = self@.conversations;
                assert(s[i as int].id == id@);
                let ghost k = conversation_index(s, id@);
                assert(0 <= k < s.len() && s[k].id == id@);
                assert(k == i) by {
                    if k != i {
                        if k < i {
                            assert(s[k].id != s[i as int].id);
                        } else {
                            assert(s[i as int].id != s[k].id);
                        }
                    }
                }
                return Some(i);
            }
            i = i + 1;
        }
        None
    }

    /// The place in the listing for a conversation updated at `t`.
    fn conversation_slot(&self, t: i64) -> (p: usize)
        requires
            conversations_wf(self@.conversations),
        ensures
            splits_at(self@.conversations, updated_after(t as int), p as int),
    {
        let mut p: usize = 0;
        while p < self.conversations.len() && self.conversations[p].updated_at > t
            invariant
                p <= self.conversations.len(),
                forall|i: int| 0 <= i < p ==> updated_after(t as int)(#[trigger] self@.conversations[i]),
            decreases self.conversations.len() - p,
        {
            assert(self@.conversations[p as int] == self.conversations@[p as int]@);
            p = p + 1;
        }
        let ghost s = self@.conversations;
        assert forall|i: int| p <= i < s.len() implies !updated_after(t as int)(#[trigger] s[i]) by {
            assert(s[p as int] == self.conversations@[p as int]@);
            assert(s[p as int].updated_at >= s[i].updated_at);
        }
        p
    }

    /// Puts `c`, whose id is new, at its place in the listing.
    fn place(&mut self, c: Conversation)
        requires
            conversations_wf(old(self)@.conversations),
            !has_conversation(old(self)@.conversations, c@.id),
        ensures
            final(self)@.conversations == place_conversation(old(self)@.conversations, c@),
            final(self)@.messages == old(self)@.messages,
            conversations_wf(final(self)@.conversations),
            forall|x: Seq<char>| has_conversation(final(self)@.conversations, x) <==> (
                has_conversation(old(self)@.conversations, x) || x == c@.id),
    {
        let p = self.conversation_slot(c.updated_at);
        let ghost s = self@.conversations;
        let ghost cv = c@;
        self.conversations.insert(p, c);
        proof {
            assert(self@.conversations =~= s.insert(p as int, cv));
            lemma_place_conversation(s, cv, p as int);
            assert forall|x: Seq<char>| has_conversation(self@.conversations, x) <==> (
                has_conversation(s, x) || x == cv.id) by {
                lemma_insert_has(s, p as int, cv, x);
            }
        }
    }

    /// Stores a new conversation with the given id, title and time.
    /// Refused, with the store unchanged, when the id is taken.
    pub fn create_conversation_with(&mut self, id: &str, title: &str, now: i64) -> (r: Result<
        Conversation,
        AppError,
    >)
        requires
            old(self)@.wf(),
        ensures
            final(self)@.wf(),
            has_conversation(old(self)@.conversations, id@) ==> is_database_error(
                r,
                conversation_id_taken(),
            ) && final(self)@ == old(self)@,
            !has_conversation(old(self)@.conversations, id@) ==> (r matches Ok(c) && c@
                == new_conversation(id@, title@, now as int) && final(self)@
                == after_create_conversation(old(self)@, c@)),
    {
        if self.find_conversation(id).is_some() {
            return Err(AppError::Database(String::from_str("UNIQUE constraint failed: conversations.id")));
        }
        let c = Conversation {
            id: String::from_str(id),
            title: String::from_str(title),
            created_at: now,
            updated_at: now,
        };
        let out = c.clone();
        let ghost old_v = self@;
        self.place(c);
        proof {
            lemma_messages_wf_more(old_v.messages, old_v.conversations, self@.conversations);
        }
        Ok(out)
    }

    /// Gives the conversation `id` the title `title`, when one is given, and
    /// the update time `now`; `NotFound`, with the store unchanged, when there
    /// is no such conversation.
    pub fn update_conversation(&mut self, id: &str, title: Option<&str>, now: i64) -> (r:
        Result<Conversation, AppError>)
        requires
            old(self)@.wf(),
        ensures
            final(self)@.wf(),
            !has_conversation(old(self)@.conversations, id@) ==> is_not_found(
                r,
                conversation_missing(id@),
            ) && final(self)@ == old(self)@,
            has_conversation(old(self)@.conversations, id@) ==> (r matches Ok(c) && c@ == touched(
                old(self)@.conversations[conversation_index(old(self)@.conversations, id@)],
                opt_str_view(title),
                now as int,
            ) && final(self)@ == after_update_conversation(
                old(self)@,
                id@,
                opt_str_view(title),
                now as int,
            )),
    {
        let i = match self.find_conversation(id) {
            Some(i) => i,
            None => {
                let e = missing("Conversation", id);
                proof {
                    reveal_strlit("Conversation");
                    reveal_strlit("Conversation ");
                    reveal_strlit(" ");
                    assert("Conversation"@ + " "@ =~= "Conversation "@);
                }
                return Err(e);
            },
        };
        let ghost old_v = self@;
        let mut c = self.conversations.remove(i);
        proof {
            assert(self@.conversations =~= old_v.conversations.remove(i as int));
            lemma_remove_wf(old_v.conversations, i as int);
            assert(c@ == old_v.conversations[i as int]);
            assert(!has_conversation(self@.conversations, c@.id)) by {
                lemma_remove_has(old_v.conversations, i as int, c@.id);
            }
        }
        if let Some(t) = title {
            c.title = String::from_str(t);
        }
        c.updated_at = now;
        let out = c.clone();
        let ghost mid = self@.conversations;
        self.place(c);
        proof {
            assert forall|x: Seq<char>| has_conversation(old_v.conversations, x) implies has_conversation(
                self@.conversations, x) by {
                lemma_remove_has(old_v.conversations, i as int, x);
            }
            lemma_messages_wf_more(old_v.messages, old_v.conversations, self@.conversations);
        }
        Ok(out)
    }

    /// Deletes the conversation `id` and its messages; `NotFound`, with the
    /// store unchanged, when there is no such conversation.
    pub fn delete_conversation(&mut self, id: &str) -> (r: Result<(), AppError>)
        requires
            old(self)@.wf(),
        ensures
            final(self)@.wf(),
            !has_conversation(old(self)@.conversations, id@) ==> is_not_found(
                r,
                conversation_missing(id@),
            ) && final(self)@ == old(self)@,
            has_conversation(old(self)@.conversations, id@) ==> r is Ok && final(self)@
                == after_delete_conversation(old(self)@, id@),
    {
        let i = match self.find_conversation(id) {
            Some(i) => i,
            None => {
                let e = missing("Conversation", id);
                proof {
                    reveal_strlit("Conversation");
                    reveal_strlit("Conversation ");
                    reveal_strlit(" ");
                    assert("Conversation"@ + " "@ =~= "Conversation "@);
                }
                return Err(e);
            },
        };
        let ghost old_v = self@;
        let kept = select_messages(&self.messages, id, false);
        let _gone = self.conversations.remove(i);
        self.messages = kept;
        proof {
            assert(self@.conversations =~= old_v.conversations.remove(i as int));
            lemma_remove_wf(old_v.conversations, i as int);
            let f = old_v.messages.filter(outside_conversation(id@));
            lemma_filter_ordered(old_v.messages, outside_conversation(id@));
            assert forall|k: int| 0 <= k < f.len() implies has_conversation(
                self@.conversations,
                (#[trigger] f[k]).conversation_id,
            ) by {
                broadcast use vstd::seq_lib::group_filter_ensures;
                assert(outside_conversation(id@)(f[k]));
                assert(old_v.messages.contains(f[k]));
                lemma_remove_has(old_v.conversations, i as int, f[k].conversation_id);
            }
        }
        Ok(())
    }

    /// The messages of the conversation `conversation_id`, oldest first.
    pub fn list_messages(&self, conversation_id: &str) -> (r: Vec<Message>)
        ensures
            message_views(r@) == messages_of(self@, conversation_id@),
            self@.wf() ==> forall|i: int, j: int|
                0 <= i < j < r@.len() ==> (#[trigger] r@[i]).created_at <= (#[trigger] r@[j]).created_at,
    {
        let r = select_messages(&self.messages, conversation_id, true);
        proof {
            if self@.wf() {
                lemma_filter_ordered(self@.messages, in_conversation(conversation_id@));
                assert forall|i: int, j: int| 0 <= i < j < r@.len() implies (#[trigger] r@[i]).created_at
                    <= (#[trigger] r@[j]).created_at by {
                    assert(message_views(r@)[i] == r@[i]@);
                    assert(message_views(r@)[j] == r@[j]@);
                }
            }
        }
        r
    }

    /// The position of the message `id` of the conversation `cid`.
    fn find_message(&self, cid: &str, id: &str) -> (r: Option<usize>)
        requires
            self@.wf(),
        ensures
            match r {
                Some(i) => i < self@.messages.len() && i == message_index(self@.messages, cid@, id@)
                    && has_message(self@.messages, cid@, id@),
                None => !has_message(self@.messages, cid@, id@),
            },
    {
        let mut i: usize = 0;
        while i < self.messages.len()
            invariant
                self@.wf(),
                i <= self.messages.len(),
                forall|j: int|
                    0 <= j < i ==> !((#[trigger] self@.messages[j]).id == id@
                        && self@.messages[j].conversation_id == cid@),
            decreases self.messages.len() - i,
        {
            assert(self@.messages[i as int] == self.messages@[i as int]@);
            if self.messages[i].id.as_str().eq(id) && self.messages[i].conversation_id.as_str().eq(cid) {
                let ghost s = self@.messages;
                let ghost k = message_index(s, cid@, id@);
                assert(s[i as int].id == id@ && s[i as int].conversation_id == cid@);
                assert(0 <= k < s.len() && s[k].id == id@);
                assert(k == i) by {
                    if k != i {
                        if k < i {
                            assert(s[k].id != s[i as int].id);
                        } else {
                            assert(s[i as int].id != s[k].id);
                        }
                    }
                }
                return Some(i);
            }
            i = i + 1;
        }
        None
    }

    /// Whether some stored message has the id `id`.
    fn message_id_taken(&self, id: &str) -> (b: bool)
        ensures
            b == has_message_id(self@.messages, id@),
    {
        let mut i: usize = 0;
        while i < self.messages.len()
            invariant
                i <= self.messages.len(),
                forall|j: int| 0 <= j < i ==> (#[trigger] self@.messages[j]).id != id@,
            decreases self.messages.len() - i,
        {
            assert(self@.messages[i as int] == self.messages@[i as int]@);
            if self.messages[i].id.as_str().eq(id) {
                return true;
            }
            i = i + 1;
        }
        false
    }

    /// The place in the listing for a message created at `t`.
    fn message_slot(&self, t: i64) -> (p: usize)
        requires
            messages_ordered(self@.messages),
        ensures
            splits_at(self@.messages, created_no_later(t as int), p as int),
    {
        let mut p: usize = 0;
        while p < self.messages.len() && self.messages[p].created_at <= t
            invariant
                p <= self.messages.len(),
                forall|i: int| 0 <= i < p ==> created_no_later(t as int)(#[trigger] self@.messages[i]),
            decreases self.messages.len() - p,
        {
            assert(self@.messages[p as int] == self.messages@[p as int]@);
            p = p + 1;
        }
        let ghost s = self@.messages;
        assert forall|i: int| p <= i < s.len() implies !created_no_later(t as int)(#[trigger] s[i]) by {
            assert(s[p as int] == self.messages@[p as int]@);
            assert(s[p as int].created_at <= s[i].created_at);
        }
        p
    }

    /// Puts `m`, whose id is new and whose conversation is stored, at its place.
    fn insert_message(&mut self, m: Message)
        requires
            old(self)@.wf(),
            !has_message_id(old(self)@.messages, m@.id),
            has_conversation(old(self)@.conversations, m@.conversation_id),
        ensures
            final(self)@.wf(),
            final(self)@.conversations == old(self)@.conversations,
            final(self)@.messages == place_message(old(self)@.messages, m@),
    {
        let p = self.message_slot(m.created_at);
        let ghost s = self@.messages;
        let ghost mv = m@;
        self.messages.insert(p, m);
        proof {
            assert(self@.messages =~= s.insert(p as int, mv));
            lemma_place_message(s, mv, p as int);
            assert forall|i: int| 0 <= i < self@.messages.len() implies has_conversation(
                self@.conversations,
                (#[trigger] self@.messages[i]).conversation_id,
            ) by {
                if self@.messages[i] != mv {
                    let k = choose|k: int| 0 <= k < s.len() && s[k] == self@.messages[i];
                    assert(has_conversation(self@.conversations, s[k].conversation_id));
                }
            }
        }
    }

    /// Stores a message with the given id and time in the conversation
    /// `conversation_id`, whose update time becomes `now`. Refused, with the
    /// store unchanged, when the id is taken or the conversation does not exist.
    pub fn create_message_with(
        &mut self,
        id: &str,
        conversation_id: &str,
        role: &str,
        content: &str,
        now: i64,
    ) -> (r: Result<Message, AppError>)
        requires
            old(self)@.wf(),
        ensures
            final(self)@.wf(),
            has_message_id(old(self)@.messages, id@) ==> is_database_error(r, message_id_taken())
                && final(self)@ == old(self)@,
            !has_message_id(old(self)@.messages, id@) && !has_conversation(
                old(self)@.conversations,
                conversation_id@,
            ) ==> is_database_error(r, foreign_key_failed()) && final(self)@ == old(self)@,
            !has_message_id(old(self)@.messages, id@) && has_conversation(
                old(self)@.conversations,
                conversation_id@,
            ) ==> (r matches Ok(m) && m@ == new_message(
                id@,
                conversation_id@,
                role@,
                content@,
                now as int,
            ) && final(self)@ == after_create_message(old(self)@, m@)),
    {
        if self.message_id_taken(id) {
            return Err(AppError::Database(String::from_str("UNIQUE constraint failed: messages.id")));
        }
        if self.find_conversation(conversation_id).is_none() {
            return Err(AppError::Database(String::from_str("FOREIGN KEY constraint failed")));
        }
        let m = Message {
            id: String::from_str(id),
            conversation_id: String::from_str(conversation_id),
            role: String::from_str(role),
            content: String::from_str(content),
            created_at: now,
        };
        let out = m.clone();
        let ghost v0 = self@;
        self.insert_message(m);
        let touched = self.update_conversation(conversation_id, None, now);
        proof {
            assert(touched is Ok);
        }
        Ok(out)
    }

    /// Stores a user message created at `now` and the assistant's reply created
    /// one microsecond later, and sets the conversation's update time to the
    /// reply's; all of it, or nothing when an id is taken (the two ids included)
    /// or the conversation does not exist.
    pub fn create_user_assistant_message_pair_with(
        &mut self,
        user_id: &str,
        assistant_id: &str,
        conversation_id: &str,
        user_content: &str,
        assistant_content: &str,
        now: i64,
    ) -> (r: Result<(), AppError>)
        requires
            old(self)@.wf(),
            now < i64::MAX,
        ensures
            final(self)@.wf(),
            has_message_id(old(self)@.messages, user_id@) ==> is_database_error(
                r,
                message_id_taken(),
            ) && final(self)@ == old(self)@,
            !has_message_id(old(self)@.messages, user_id@) && !has_conversation(
                old(self)@.conversations,
                conversation_id@,
            ) ==> is_database_error(r, foreign_key_failed()) && final(self)@ == old(self)@,
            !has_message_id(old(self)@.messages, user_id@) && has_conversation(
                old(self)@.conversations,
                conversation_id@,
            ) && (has_message_id(old(self)@.messages, assistant_id@) || assistant_id@ == user_id@)
                ==> is_database_error(r, message_id_taken()) && final(self)@ == old(self)@,
            !has_message_id(old(self)@.messages, user_id@) && has_conversation(
                old(self)@.conversations,
                conversation_id@,
            ) && !has_message_id(old(self)@.messages, assistant_id@) && assistant_id@ != user_id@
                ==> r is Ok && final(self)@ == after_create_pair(
                old(self)@,
                new_message(user_id@, conversation_id@, "user"@, user_content@, now as int),
                new_message(
                    assistant_id@,
                    conversation_id@,
                    "assistant"@,
                    assistant_content@,
                    now + 1,
                ),
            ),
    {
        if self.message_id_taken(user_id) {
            return Err(AppError::Database(String::from_str("UNIQUE constraint failed: messages.id")));
        }
        if self.find_conversation(conversation_id).is_none() {
            return Err(AppError::Database(String::from_str("FOREIGN KEY constraint failed")));
        }
        if self.message_id_taken(assistant_id) || assistant_id.eq(user_id) {
            return Err(AppError::Database(String::from_str("UNIQUE constraint failed: messages.id")));
        }
        let later = now + 1;
        let user = Message {
            id: String::from_str(user_id),
            conversation_id: String::from_str(conversation_id),
            role: String::from_str("user"),
            content: String::from_str(user_content),
            created_at: now,
        };
        let assistant = Message {
            id: String::from_str(assistant_id),
            conversation_id: String::from_str(conversation_id),
            role: String::from_str("assistant"),
            content: String::from_str(assistant_content),
            created_at: later,
        };
        let ghost v0 = self@;
        let ghost uv = user@;
        self.insert_message(user);
        proof {
            lemma_place_message_has(v0.messages, uv, assistant_id@);
        }
        self.insert_message(assistant);
        let touched = self.update_conversation(conversation_id, None, later);
        proof {
            assert(touched is Ok);
        }
        Ok(())
    }

    /// The message `message_id` of the conversation `conversation_id`, or
    /// `NotFound` when there is none.
    pub fn get_message(&self, conversation_id: &str, message_id: &str) -> (r: Result<
        Message,
        AppError,
    >)
        requires
            self@.wf(),
        ensures
            match lookup_message(self@.messages, conversation_id@, message_id@) {
                Some(m) => r matches Ok(found) && found@ == m,
                None => is_not_found(r, message_missing(message_id@)),
            },
    {
        match self.find_message(conversation_id, message_id) {
            Some(i) => Ok(self.messages[i].clone()),
            None => {
                let e = missing("Message", message_id);
                proof {
                    reveal_strlit("Message");
                    reveal_strlit("Message ");
                    reveal_strlit(" ");
                    assert("Message"@ + " "@ =~= "Message "@);
                }
                Err(e)
            },
        }
    }

    /// Deletes the message `message_id` of the conversation `conversation_id`;
    /// `NotFound`, with the store unchanged, when there is none.
    pub fn delete_message(&mut self, conversation_id: &str, message_id: &str) -> (r: Result<
        (),
        AppError,
    >)
        requires
            old(self)@.wf(),
        ensures
            final(self)@.wf(),
            !has_message(old(self)@.messages, conversation_id@, message_id@) ==> is_not_found(
                r,
                message_missing(message_id@),
            ) && final(self)@ == old(self)@,
            has_message(old(self)@.messages, conversation_id@, message_id@) ==> r is Ok
                && final(self)@ == after_delete_message(old(self)@, conversation_id@, message_id@),
    {
        let i = match self.find_message(conversation_id, message_id) {
            Some(i) => i,
            None => {
                let e = missing("Message", message_id);
                proof {
                    reveal_strlit("Message");
                    reveal_strlit("Message ");
                    reveal_strlit(" ");
                    assert("Message"@ + " "@ =~= "Message "@);
                }
                return Err(e);
            },
        };
        let ghost old_v = self@;
        let _gone = self.messages.remove(i);
        proof {
            let s = old_v.messages;
            let t = s.remove(i as int);
            assert(self@.messages =~= t);
            assert forall|a: int, b: int| 0 <= a < b < t.len() implies (#[trigger] t[a]).id != (
            #[trigger] t[b]).id && t[a].created_at <= t[b].created_at by {
                let x = if a < i { a } else { a + 1 };
                let y = if b < i { b } else { b + 1 };
                assert(t[a] == s[x] && t[b] == s[y]);
            }
            assert forall|a: int| 0 <= a < t.len() implies has_conversation(
                self@.conversations,
                (#[trigger] t[a]).conversation_id,
            ) by {
                let x = if a < i { a } else { a + 1 };
                assert(t[a] == s[x]);
            }
        }
        Ok(())
    }

    /// Stores a new conversation titled `title`, created at `now`, whose id is
    /// the UUID made from `random`. Refused, with the store unchanged, only
    /// when that id is already taken, which cannot happen while no stored id
    /// has the 36 characters of a UUID.
    pub fn create_conversation(&mut self, title: &str, random: [u8; 16], now: i64) -> (r: Result<
        Conversation,
        AppError,
    >)
        requires
            old(self)@.wf(),
        ensures
            final(self)@.wf(),
            has_conversation(old(self)@.conversations, uuid_v4_text(random@)) ==> is_database_error(
                r,
                conversation_id_taken(),
            ) && final(self)@ == old(self)@,
            !has_conversation(old(self)@.conversations, uuid_v4_text(random@)) ==> (r matches Ok(c)
                && c@ == new_conversation(uuid_v4_text(random@), title@, now as int)
                && final(self)@ == after_create_conversation(old(self)@, c@)),
            (forall|i: int|
                0 <= i < old(self)@.conversations.len()
                    ==> (#[trigger] old(self)@.conversations[i]).id.len() != 36) ==> r is Ok,
    {
        let id = new_id(random);
        self.create_conversation_with(id.as_str(), title, now)
    }

    /// Stores a message in the conversation `conversation_id`, created at
    /// `now`, whose id is the UUID made from `random`; the conversation's
    /// update time becomes `now`. Refused, with the store unchanged, when that
    /// id is taken (which cannot happen while no stored message id has the 36
    /// characters of a UUID) or the conversation does not exist.
    pub fn create_message(
        &mut self,
        conversation_id: &str,
        role: &str,
        content: &str,
        random: [u8; 16],
        now: i64,
    ) -> (r: Result<Message, AppError>)
        requires
            old(self)@.wf(),
        ensures
            final(self)@.wf(),
            has_message_id(old(self)@.messages, uuid_v4_text(random@)) ==> is_database_error(
                r,
                message_id_taken(),
            ) && final(self)@ == old(self)@,
            !has_message_id(old(self)@.messages, uuid_v4_text(random@)) && !has_conversation(
                old(self)@.conversations,
                conversation_id@,
            ) ==> is_database_error(r, foreign_key_failed()) && final(self)@ == old(self)@,
            !has_message_id(old(self)@.messages, uuid_v4_text(random@)) && has_conversation(
                old(self)@.conversations,
                conversation_id@,
            ) ==> (r matches Ok(m) && m@ == new_message(
                uuid_v4_text(random@),
                conversation_id@,
                role@,
                content@,
                now as int,
            ) && final(self)@ == after_create_message(old(self)@, m@)),
            has_conversation(old(self)@.conversations, conversation_id@) && (forall|i: int|
                0 <= i < old(self)@.messages.len() ==> (#[trigger] old(self)@.messages[i]).id.len()
                    != 36) ==> r is Ok,
    {
        let id = new_id(random);
        self.create_message_with(id.as_str(), conversation_id, role, content, now)
    }

    /// Stores a user message created at `now` and the assistant's reply one
    /// microsecond later, with the UUIDs made from `user_random` and
    /// `assistant_random` as their ids, and sets the conversation's update
    /// time to the reply's; all of it, or nothing when an id is taken (the two
    /// ids included) or the conversation does not exist.
    pub fn create_user_assistant_message_pair(
        &mut self,
        conversation_id: &str,
        user_content: &str,
        assistant_content: &str,
        user_random: [u8; 16],
        assistant_random: [u8; 16],
        now: i64,
    ) -> (r: Result<(), AppError>)
        requires
            old(self)@.wf(),
            now < i64::MAX,
        ensures
            final(self)@.wf(),
            ({
                let u = uuid_v4_text(user_random@);
                let a = uuid_v4_text(assistant_random@);
                let before = old(self)@;
                &&& has_message_id(before.messages, u) ==> is_database_error(r, message_id_taken())
                    && final(self)@ == before
                &&& !has_message_id(before.messages, u) && !has_conversation(
                    before.conversations,
                    conversation_id@,
                ) ==> is_database_error(r, foreign_key_failed()) && final(self)@ == before
                &&& !has_message_id(before.messages, u) && has_conversation(
                    before.conversations,
                    conversation_id@,
                ) && (has_message_id(before.messages, a) || a == u) ==> is_database_error(
                    r,
                    message_id_taken(),
                ) && final(self)@ == before
                &&& !has_message_id(before.messages, u) && has_conversation(
                    before.conversations,
                    conversation_id@,
                ) && !has_message_id(before.messages, a) && a != u ==> r is Ok && final(self)@
                    == after_create_pair(
                    before,
                    new_message(u, conversation_id@, "user"@, user_content@, now as int),
                    new_message(a, conversation_id@, "assistant"@, assistant_content@, now + 1),
                )
            }),
    {
        let user_id = new_id(user_random);
        let assistant_id = new_id(assistant_random);
        self.create_user_assistant_message_pair_with(
            user_id.as_str(),
            assistant_id.as_str(),
            conversation_id,
            user_content,
            assistant_content,
            now,
        )
    }

    /// The conversations, most recently updated first.
    pub fn list_conversations(&self) -> (r: Vec<Conversation>)
        ensures
            conversation_views(r@) == self@.conversations,
            self@.wf() ==> forall|i: int, j: int|
                0 <= i < j < r@.len() ==> (#[trigger] r@[i]).updated_at >= (#[trigger] r@[j]).updated_at,
    {
        let mut out: Vec<Conversation> = Vec::new();
        let mut i: usize = 0;
        while i < self.conversations.len()
            invariant
                i <= self.conversations.len(),
                conversation_views(out@) == self@.conversations.take(i as int),
            decreases self.conversations.len() - i,
        {
            let c = self.conversations[i].clone();
            let ghost before = out@;
            out.push(c);
            proof {
                assert(out@ == before.push(c));
                assert(conversation_views(out@) =~= conversation_views(before).push(c@));
                assert(self@.conversations.take(i + 1) =~= self@.conversations.take(i as int).push(
                    self@.conversations[i as int],
                ));
            }
            i = i + 1;
        }
        assert(self@.conversations.take(i as int) =~= self@.conversations);
        proof {
            if self@.wf() {
                assert forall|a: int, b: int| 0 <= a < b < out@.len() implies (#[trigger] out@[a]).updated_at
                    >= (#[trigger] out@[b]).updated_at by {
                    assert(conversation_views(out@)[a] == out@[a]@);
                    assert(conversation_views(out@)[b] == out@[b]@);
                }
            }
        }
        out
    }

    /// The conversation `id`, or `NotFound` when there is none.
    pub fn get_conversation(&self, id: &str) -> (r: Result<Conversation, AppError>)
        requires
            self@.wf(),
        ensures
            match lookup_conversation(self@.conversations, id@) {
                Some(c) => r matches Ok(found) && found@ == c,
                None => is_not_found(r, conversation_missing(id@)),
            },
    {
        match self.find_conversation(id) {
            Some(i) => Ok(self.conversations[i].clone()),
            None => {
                let e = missing("Conversation", id);
                proof {
                    reveal_strlit("Conversation");
                    reveal_strlit("Conversation ");
                    reveal_strlit(" ");
                    assert("Conversation"@ + " "@ =~= "Conversation "@);
                }
                Err(e)
            },
        }
    }
}

} // verus!
