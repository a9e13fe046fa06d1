//! The model of the conversation store: both listings as sequences, the
//! effect of each operation on them, and the facts the proofs use.
use vstd::prelude::*;
use crate::models::{ConversationView, MessageView};

verus! {

// ---------------------------------------------------------------------------
// Ordered placement
// ---------------------------------------------------------------------------

/// `x` placed into `s` right after the trailing run of elements that go
/// after it, that is, after the last element for which `stays_before` holds
/// (or at the front when there is none).
pub open spec fn place_after<A>(s: Seq<A>, x: A, stays_before: spec_fn(A) -> bool) -> Seq<A>
    decreases s.len(),
{
    if s.len() == 0 || stays_before(s.last()) {
        s.push(x)
    } else {
        place_after(s.drop_last(), x, stays_before).push(s.last())
    }
}

/// `stays_before` holds on the first `p` elements of `s` and on no other.
pub open spec fn splits_at<A>(s: Seq<A>, stays_before: spec_fn(A) -> bool, p: int) -> bool {
    &&& 0 <= p <= s.len()
    &&& forall|i: int| 0 <= i < p ==> stays_before(#[trigger] s[i])
    &&& forall|i: int| p <= i < s.len() ==> !stays_before(#[trigger] s[i])
}

/// Where the predicate splits the sequence, placement is insertion at the split.
pub proof fn lemma_place_at<A>(s: Seq<A>, x: A, stays_before: spec_fn(A) -> bool, p: int)
    requires
        splits_at(s, stays_before, p),
    ensures
        place_after(s, x, stays_before) == s.insert(p, x),
    decreases s.len(),
{
    if s.len() == 0 {
        assert(s.insert(p, x) =~= s.push(x));
    } else if stays_before(s.last()) {
        assert(p == s.len());
        assert(s.insert(p, x) =~= s.push(x));
    } else {
        let d = s.drop_last();
        assert(splits_at(d, stays_before, p)) by {
            assert forall|i: int| 0 <= i < p implies stays_before(#[trigger] d[i]) by {
                assert(d[i] == s[i]);
            }
            assert forall|i: int| p <= i < d.len() implies !stays_before(#[trigger] d[i]) by {
                assert(d[i] == s[i]);
            }
        }
        lemma_place_at(d, x, stays_before, p);
        assert(s.insert(p, x) =~= d.insert(p, x).push(s.last()));
    }
}

// ---------------------------------------------------------------------------
// The model
// ---------------------------------------------------------------------------

/// The store as the library's contracts see it: both sequences in listing order.
pub struct StoreState {
    pub conversations: Seq<ConversationView>,
    pub messages: Seq<MessageView>,
}

/// Conversations that stay in front of one updated at `t`: those updated later.
pub open spec fn updated_after(t: int) -> spec_fn(ConversationView) -> bool {
    |c: ConversationView| c.updated_at > t
}

/// Messages that stay in front of one created at `t`: those created no later.
pub open spec fn created_no_later(t: int) -> spec_fn(MessageView) -> bool {
    |m: MessageView| m.created_at <= t
}

/// `c` placed among the conversations by its update time.
pub open spec fn place_conversation(s: Seq<ConversationView>, c: ConversationView) -> Seq<
    ConversationView,
> {
    place_after(s, c, updated_after(c.updated_at))
}

/// `m` placed among the messages by its creation time.
pub open spec fn place_message(s: Seq<MessageView>, m: MessageView) -> Seq<MessageView> {
    place_after(s, m, created_no_later(m.created_at))
}

/// Some conversation in `s` has the id `id`.
pub open spec fn has_conversation(s: Seq<ConversationView>, id: Seq<char>) -> bool {
    exists|i: int| 0 <= i < s.len() && (#[trigger] s[i]).id == id
}

/// The position of the conversation with the id `id`.
pub open spec fn conversation_index(s: Seq<ConversationView>, id: Seq<char>) -> int {
    choose|i: int| 0 <= i < s.len() && (#[trigger] s[i]).id == id
}

/// The conversation with the id `id`, if there is one.
pub open spec fn lookup_conversation(s: Seq<ConversationView>, id: Seq<char>) -> Option<
    ConversationView,
> {
    if has_conversation(s, id) {
        Some(s[conversation_index(s, id)])
    } else {
        None
    }
}

/// Some message in `s` has the id `id`.
pub open spec fn has_message_id(s: Seq<MessageView>, id: Seq<char>) -> bool {
    exists|i: int| 0 <= i < s.len() && (#[trigger] s[i]).id == id
}

/// Some message in `s` has the id `id` and belongs to the conversation `cid`.
pub open spec fn has_message(s: Seq<MessageView>, cid: Seq<char>, id: Seq<char>) -> bool {
    exists|i: int| 0 <= i < s.len() && (#[trigger] s[i]).id == id && s[i].conversation_id == cid
}

/// The position of the message with the id `id` in the conversation `cid`.
pub open spec fn message_index(s: Seq<MessageView>, cid: Seq<char>, id: Seq<char>) -> int {
    choose|i: int| 0 <= i < s.len() && (#[trigger] s[i]).id == id && s[i].conversation_id == cid
}

/// The message with the id `id` in the conversation `cid`, if there is one.
pub open spec fn lookup_message(s: Seq<MessageView>, cid: Seq<char>, id: Seq<char>) -> Option<
    MessageView,
> {
    if has_message(s, cid, id) {
        Some(s[message_index(s, cid, id)])
    } else {
        None
    }
}

/// Messages that belong to the conversation `cid`.
pub open spec fn in_conversation(cid: Seq<char>) -> spec_fn(MessageView) -> bool {
    |m: MessageView| m.conversation_id == cid
}

/// Messages that do not belong to the conversation `cid`.
pub open spec fn outside_conversation(cid: Seq<char>) -> spec_fn(MessageView) -> bool {
    |m: MessageView| m.conversation_id != cid
}

/// The messages of the conversation `cid`, in listing order.
pub open spec fn messages_of(v: StoreState, cid: Seq<char>) -> Seq<MessageView> {
    v.messages.filter(in_conversation(cid))
}

/// Ids are distinct and the sequence is in listing order (latest update first).
pub open spec fn conversations_wf(s: Seq<ConversationView>) -> bool {
    &&& forall|i: int, j: int| 0 <= i < j < s.len() ==> (#[trigger] s[i]).id != (#[trigger] s[j]).id
    &&& forall|i: int, j: int|
        0 <= i < j < s.len() ==> (#[trigger] s[i]).updated_at >= (#[trigger] s[j]).updated_at
}

/// Ids are distinct and the sequence is in listing order (earliest first).
pub open spec fn messages_ordered(s: Seq<MessageView>) -> bool {
    &&& forall|i: int, j: int| 0 <= i < j < s.len() ==> (#[trigger] s[i]).id != (#[trigger] s[j]).id
    &&& forall|i: int, j: int|
        0 <= i < j < s.len() ==> (#[trigger] s[i]).created_at <= (#[trigger] s[j]).created_at
}

/// Every message belongs to one of `convs`.
pub open spec fn messages_owned(s: Seq<MessageView>, convs: Seq<ConversationView>) -> bool {
    forall|i: int| 0 <= i < s.len() ==> has_conversation(convs, (#[trigger] s[i]).conversation_id)
}

/// Messages in listing order, each belonging to one of `convs`.
pub open spec fn messages_wf(s: Seq<MessageView>, convs: Seq<ConversationView>) -> bool {
    messages_ordered(s) && messages_owned(s, convs)
}

impl StoreState {
    /// The store's invariant.
    pub open spec fn wf(self) -> bool {
        conversations_wf(self.conversations) && messages_wf(self.messages, self.conversations)
    }
}

/// A fresh conversation.
pub open spec fn new_conversation(id: Seq<char>, title: Seq<char>, now: int) -> ConversationView {
    ConversationView { id, title, created_at: now, updated_at: now }
}

/// `c` with its title replaced (when one is given) and its update time set to `now`.
pub open spec fn touched(c: ConversationView, title: Option<Seq<char>>, now: int) -> ConversationView {
    ConversationView {
        title: match title {
            Some(t) => t,
            None => c.title,
        },
        updated_at: now,
        ..c
    }
}

/// The store after adding the conversation `c`.
pub open spec fn after_create_conversation(v: StoreState, c: ConversationView) -> StoreState {
    StoreState { conversations: place_conversation(v.conversations, c), messages: v.messages }
}

/// The store after updating the conversation `id` (which it holds) at `now`.
pub open spec fn after_update_conversation(
    v: StoreState,
    id: Seq<char>,
    title: Option<Seq<char>>,
    now: int,
) -> StoreState {
    let i = conversation_index(v.conversations, id);
    StoreState {
        conversations: place_conversation(
            v.conversations.remove(i),
            touched(v.conversations[i], title, now),
        ),
        messages: v.messages,
    }
}

/// The store after deleting the conversation `id` (which it holds) and its messages.
pub open spec fn after_delete_conversation(v: StoreState, id: Seq<char>) -> StoreState {
    StoreState {
        conversations: v.conversations.remove(conversation_index(v.conversations, id)),
        messages: v.messages.filter(outside_conversation(id)),
    }
}

/// The message that `create_message` stores.
pub open spec fn new_message(
    id: Seq<char>,
    conversation_id: Seq<char>,
    role: Seq<char>,
    content: Seq<char>,
    now: int,
) -> MessageView {
    MessageView { id, conversation_id, role, content, created_at: now }
}

/// The store after adding the message `m`, whose conversation it holds: the
/// message takes its place and the conversation's update time becomes the
/// message's creation time.
pub open spec fn after_create_message(v: StoreState, m: MessageView) -> StoreState {
    StoreState {
        conversations: after_update_conversation(
            v,
            m.conversation_id,
            None,
            m.created_at,
        ).conversations,
        messages: place_message(v.messages, m),
    }
}

/// The store after adding a user message and the assistant's reply to it,
/// created one microsecond later, in one step.
pub open spec fn after_create_pair(v: StoreState, user: MessageView, assistant: MessageView) -> StoreState {
    StoreState {
        conversations: after_update_conversation(
            v,
            user.conversation_id,
            None,
            assistant.created_at,
        ).conversations,
        messages: place_message(place_message(v.messages, user), assistant),
    }
}

/// The store after deleting the message `id` of the conversation `cid` (which it holds).
pub open spec fn after_delete_message(v: StoreState, cid: Seq<char>, id: Seq<char>) -> StoreState {
    StoreState {
        conversations: v.conversations,
        messages: v.messages.remove(message_index(v.messages, cid, id)),
    }
}

/// The error message for a missing conversation.
pub open spec fn conversation_missing(id: Seq<char>) -> Seq<char> {
    "Conversation "@ + id + " not found"@
}

/// The error message for a missing message.
pub open spec fn message_missing(id: Seq<char>) -> Seq<char> {
    "Message "@ + id + " not found"@
}

/// The error message for a conversation id that is already taken.
pub open spec fn conversation_id_taken() -> Seq<char> {
    "UNIQUE constraint failed: conversations.id"@
}

/// The error message for a message id that is already taken.
pub open spec fn message_id_taken() -> Seq<char> {
    "UNIQUE constraint failed: messages.id"@
}

/// The error message for a message whose conversation does not exist.
pub open spec fn foreign_key_failed() -> Seq<char> {
    "FOREIGN KEY constraint failed"@
}


// ---------------------------------------------------------------------------
// Facts about the model
// ---------------------------------------------------------------------------

/// Inserting keeps every conversation id and adds the inserted one.
pub proof fn lemma_insert_has(s: Seq<ConversationView>, p: int, c: ConversationView, x: Seq<char>)
    requires
        0 <= p <= s.len(),
    ensures
        has_conversation(s.insert(p, c), x) <==> (has_conversation(s, x) || x == c.id),
{
    let t = s.insert(p, c);
    if has_conversation(s, x) {
        let i = choose|i: int| 0 <= i < s.len() && (#[trigger] s[i]).id == x;
        if i < p {
            assert(t[i] == s[i]);
        } else {
            assert(t[i + 1] == s[i]);
        }
    }
    if x == c.id {
        assert(t[p] == c);
    }
    if has_conversation(t, x) {
        let i = choose|i: int| 0 <= i < t.len() && (#[trigger] t[i]).id == x;
        if i < p {
            assert(t[i] == s[i]);
        } else if i > p {
            assert(t[i] == s[i - 1]);
        }
    }
}

/// Removing position `k` keeps every other conversation id.
pub proof fn lemma_remove_has(s: Seq<ConversationView>, k: int, x: Seq<char>)
    requires
        0 <= k < s.len(),
        conversations_wf(s),
    ensures
        has_conversation(s.remove(k), x) <==> (has_conversation(s, x) && x != s[k].id),
{
    let t = s.remove(k);
    if has_conversation(s, x) && x != s[k].id {
        let i = choose|i: int| 0 <= i < s.len() && (#[trigger] s[i]).id == x;
        if i < k {
            assert(t[i] == s[i]);
        } else {
            assert(i != k);
            assert(t[i - 1] == s[i]);
        }
    }
    if has_conversation(t, x) {
        let i = choose|i: int| 0 <= i < t.len() && (#[trigger] t[i]).id == x;
        if i < k {
            assert(t[i] == s[i]);
        } else {
            assert(t[i] == s[i + 1]);
        }
    }
}

/// Removing a conversation keeps the listing well formed.
pub proof fn lemma_remove_wf(s: Seq<ConversationView>, k: int)
    requires
        0 <= k < s.len(),
        conversations_wf(s),
    ensures
        conversations_wf(s.remove(k)),
{
    let t = s.remove(k);
    assert forall|i: int, j: int| 0 <= i < j < t.len() implies (#[trigger] t[i]).id != (
    #[trigger] t[j]).id && t[i].updated_at >= t[j].updated_at by {
        let a = if i < k { i } else { i + 1 };
        let b = if j < k { j } else { j + 1 };
        assert(t[i] == s[a] && t[j] == s[b]);
    }
}

/// Placing a conversation with a new id keeps the listing well formed.
pub proof fn lemma_place_conversation(s: Seq<ConversationView>, c: ConversationView, p: int)
    requires
        conversations_wf(s),
        !has_conversation(s, c.id),
        splits_at(s, updated_after(c.updated_at), p),
    ensures
        place_conversation(s, c) == s.insert(p, c),
        conversations_wf(s.insert(p, c)),
{
    lemma_place_at(s, c, updated_after(c.updated_at), p);
    let t = s.insert(p, c);
    assert forall|i: int, j: int| 0 <= i < j < t.len() implies (#[trigger] t[i]).id != (
    #[trigger] t[j]).id && t[i].updated_at >= t[j].updated_at by {
        if i < p && j < p {
            assert(t[i] == s[i] && t[j] == s[j]);
        } else if i < p && j == p {
            assert(t[i] == s[i]);
            assert(updated_after(c.updated_at)(s[i]));
        } else if i < p {
            assert(t[i] == s[i] && t[j] == s[j - 1]);
        } else if i == p {
            assert(t[j] == s[j - 1]);
            assert(!updated_after(c.updated_at)(s[j - 1]));
        } else {
            assert(t[i] == s[i - 1] && t[j] == s[j - 1]);
        }
    }
}

/// A filtered message list keeps the order and the distinct ids, and holds
/// only messages of the list.
pub proof fn lemma_filter_ordered(s: Seq<MessageView>, pred: spec_fn(MessageView) -> bool)
    requires
        messages_ordered(s),
    ensures
        messages_ordered(s.filter(pred)),
        forall|i: int| 0 <= i < s.filter(pred).len() ==> s.contains(#[trigger] s.filter(pred)[i]),
    decreases s.len(),
{
    reveal(Seq::filter);
    broadcast use vstd::seq_lib::group_filter_ensures;
    if s.len() > 0 {
        let d = s.drop_last();
        assert(messages_ordered(d)) by {
            assert forall|i: int, j: int| 0 <= i < j < d.len() implies (#[trigger] d[i]).id != (
            #[trigger] d[j]).id && d[i].created_at <= d[j].created_at by {
                assert(d[i] == s[i] && d[j] == s[j]);
            }
        }
        lemma_filter_ordered(d, pred);
        let f = d.filter(pred);
        assert forall|i: int| 0 <= i < f.len() implies exists|j: int|
            0 <= j < s.len() - 1 && s[j] == #[trigger] f[i] by {
            assert(d.contains(f[i]));
            let j = choose|j: int| 0 <= j < d.len() && d[j] == f[i];
            assert(s[j] == d[j]);
        }
        if pred(s.last()) {
            let g = f.push(s.last());
            assert(s.filter(pred) == g);
            assert forall|i: int, j: int| 0 <= i < j < g.len() implies (#[trigger] g[i]).id != (
            #[trigger] g[j]).id && g[i].created_at <= g[j].created_at by {
                if j == g.len() - 1 {
                    assert(g[i] == f[i]);
                    let k = choose|k: int| 0 <= k < s.len() - 1 && s[k] == f[i];
                    assert(s[k].id != s[s.len() - 1].id);
                } else {
                    assert(g[i] == f[i] && g[j] == f[j]);
                }
            }
            assert forall|i: int| 0 <= i < g.len() implies s.contains(#[trigger] g[i]) by {
                if i == g.len() - 1 {
                    assert(s[s.len() - 1] == g[i]);
                } else {
                    assert(g[i] == f[i]);
                    let k = choose|k: int| 0 <= k < s.len() - 1 && s[k] == f[i];
                }
            }
        } else {
            assert(s.filter(pred) == f);
            assert forall|i: int| 0 <= i < f.len() implies s.contains(#[trigger] f[i]) by {
                let k = choose|k: int| 0 <= k < s.len() - 1 && s[k] == f[i];
            }
        }
    }
}

/// Placing a message with a new id keeps the list in order.
pub proof fn lemma_place_message(s: Seq<MessageView>, m: MessageView, p: int)
    requires
        messages_ordered(s),
        !has_message_id(s, m.id),
        splits_at(s, created_no_later(m.created_at), p),
    ensures
        place_message(s, m) == s.insert(p, m),
        messages_ordered(s.insert(p, m)),
        forall|i: int| 0 <= i < s.insert(p, m).len() ==> (#[trigger] s.insert(p, m)[i] == m
            || s.contains(s.insert(p, m)[i])),
{
    lemma_place_at(s, m, created_no_later(m.created_at), p);
    let t = s.insert(p, m);
    assert forall|i: int, j: int| 0 <= i < j < t.len() implies (#[trigger] t[i]).id != (
    #[trigger] t[j]).id && t[i].created_at <= t[j].created_at by {
        if i < p && j < p {
            assert(t[i] == s[i] && t[j] == s[j]);
        } else if i < p && j == p {
            assert(t[i] == s[i]);
            assert(created_no_later(m.created_at)(s[i]));
        } else if i < p {
            assert(t[i] == s[i] && t[j] == s[j - 1]);
        } else if i == p {
            assert(t[j] == s[j - 1]);
            assert(!created_no_later(m.created_at)(s[j - 1]));
        } else {
            assert(t[i] == s[i - 1] && t[j] == s[j - 1]);
        }
    }
    assert forall|i: int| 0 <= i < t.len() implies (#[trigger] t[i] == m || s.contains(t[i])) by {
        if i < p {
            assert(t[i] == s[i]);
        } else if i > p {
            assert(t[i] == s[i - 1]);
        }
    }
}

/// A message list that satisfies the ownership condition for `a` satisfies
/// it for `b` when `b` holds every conversation id that `a` holds.
pub proof fn lemma_messages_wf_more(m: Seq<MessageView>, a: Seq<ConversationView>, b: Seq<ConversationView>)
    requires
        messages_owned(m, a),
        forall|x: Seq<char>| has_conversation(a, x) ==> has_conversation(b, x),
    ensures
        messages_owned(m, b),
{
    assert forall|i: int| 0 <= i < m.len() implies has_conversation(b, (#[trigger] m[i]).conversation_id) by {
        assert(has_conversation(a, m[i].conversation_id));
    }
}

/// Placement adds `x` and keeps every element of `s`, and nothing else.
pub proof fn lemma_place_contents<A>(s: Seq<A>, x: A, stays_before: spec_fn(A) -> bool)
    ensures
        place_after(s, x, stays_before).len() == s.len() + 1,
        place_after(s, x, stays_before).contains(x),
        forall|i: int| 0 <= i < s.len() ==> place_after(s, x, stays_before).contains(#[trigger] s[i]),
        forall|i: int|
            0 <= i < s.len() + 1 ==> (#[trigger] place_after(s, x, stays_before)[i] == x
                || s.contains(place_after(s, x, stays_before)[i])),
    decreases s.len(),
{
    let pl = place_after(s, x, stays_before);
    if s.len() == 0 || stays_before(s.last()) {
        assert(pl[s.len() as int] == x);
        assert forall|i: int| 0 <= i < s.len() implies pl.contains(#[trigger] s[i]) by {
            assert(pl[i] == s[i]);
        }
        assert forall|i: int| 0 <= i < s.len() + 1 implies (#[trigger] pl[i] == x || s.contains(
            pl[i],
        )) by {
            if i < s.len() {
                assert(pl[i] == s[i]);
            }
        }
    } else {
        let d = s.drop_last();
        lemma_place_contents(d, x, stays_before);
        let q = place_after(d, x, stays_before);
        let k = choose|k: int| 0 <= k < q.len() && q[k] == x;
        assert(pl[k] == x);
        assert forall|i: int| 0 <= i < s.len() implies pl.contains(#[trigger] s[i]) by {
            if i == s.len() - 1 {
                assert(pl[pl.len() - 1] == s[i]);
            } else {
                assert(d[i] == s[i]);
                assert(q.contains(d[i]));
                let j = choose|j: int| 0 <= j < q.len() && q[j] == d[i];
                assert(pl[j] == q[j]);
            }
        }
        assert forall|i: int| 0 <= i < s.len() + 1 implies (#[trigger] pl[i] == x || s.contains(
            pl[i],
        )) by {
            if i == s.len() {
                assert(pl[i] == s[s.len() - 1]);
            } else {
                assert(pl[i] == q[i]);
                if q[i] != x {
                    let k = choose|k: int| 0 <= k < d.len() && d[k] == q[i];
                    assert(s[k] == d[k]);
                }
            }
        }
    }
}

/// Placing a message keeps every other message id absent.
pub proof fn lemma_place_message_has(s: Seq<MessageView>, m: MessageView, x: Seq<char>)
    ensures
        !has_message_id(s, x) && x != m.id ==> !has_message_id(place_message(s, m), x),
{
    let pl = place_message(s, m);
    lemma_place_contents(s, m, created_no_later(m.created_at));
    if !has_message_id(s, x) && x != m.id && has_message_id(pl, x) {
        let i = choose|i: int| 0 <= i < pl.len() && (#[trigger] pl[i]).id == x;
        let k = choose|k: int| 0 <= k < s.len() && s[k] == pl[i];
        assert(s[k].id == x);
    }
}

} // verus!
