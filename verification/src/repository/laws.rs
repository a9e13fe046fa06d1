//! Laws of the conversation store, stated over its model.
use vstd::prelude::*;
use crate::models::{ConversationView, MessageView};
use crate::repository::model::{
    after_create_conversation, after_create_message, after_delete_conversation,
    after_delete_message, after_update_conversation, conversation_index, conversations_wf,
    created_no_later, has_conversation, has_message, has_message_id, in_conversation,
    lemma_filter_ordered, lemma_insert_has, lemma_messages_wf_more, lemma_place_conversation,
    lemma_place_contents, lemma_place_message, lemma_remove_has, lemma_remove_wf,
    lookup_conversation, lookup_message, after_create_pair, new_message,
    message_index, messages_of, messages_ordered, messages_owned, outside_conversation, place_after,
    splits_at, touched, updated_after, StoreState,
};

verus! {

/// In a listing ordered by `stays_before` (it holds on a prefix), some
/// position splits the listing.
pub proof fn lemma_split_exists<A>(s: Seq<A>, stays_before: spec_fn(A) -> bool) -> (p: int)
    requires
        forall|i: int, j: int|
            0 <= i < j < s.len() && stays_before(#[trigger] s[j]) ==> stays_before(#[trigger] s[i]),
    ensures
        splits_at(s, stays_before, p),
    decreases s.len(),
{
    if s.len() == 0 {
        0
    } else if stays_before(s.last()) {
        assert forall|i: int| 0 <= i < s.len() implies stays_before(#[trigger] s[i]) by {
            if i < s.len() - 1 {
                assert(stays_before(s[s.len() - 1]));
            }
        }
        s.len() as int
    } else {
        let d = s.drop_last();
        assert forall|i: int, j: int|
            0 <= i < j < d.len() && stays_before(#[trigger] d[j]) implies stays_before(
            #[trigger] d[i]) by {
            assert(d[i] == s[i] && d[j] == s[j]);
        }
        let p = lemma_split_exists(d, stays_before);
        assert forall|i: int| p <= i < s.len() implies !stays_before(#[trigger] s[i]) by {
            if i < s.len() - 1 {
                assert(d[i] == s[i]);
            }
        }
        assert forall|i: int| 0 <= i < p implies stays_before(#[trigger] s[i]) by {
            assert(d[i] == s[i]);
        }
        p
    }
}

/// Where a well-formed listing places a conversation.
pub proof fn lemma_conversation_split(s: Seq<ConversationView>, c: ConversationView) -> (p: int)
    requires
        conversations_wf(s),
    ensures
        splits_at(s, updated_after(c.updated_at), p),
{
    let pred = updated_after(c.updated_at);
    assert forall|i: int, j: int| 0 <= i < j < s.len() && pred(#[trigger] s[j]) implies pred(
        #[trigger] s[i]) by {
        assert(s[i].updated_at >= s[j].updated_at);
    }
    lemma_split_exists(s, pred)
}

/// Where an ordered message list places a message.
pub proof fn lemma_message_split(s: Seq<MessageView>, m: MessageView) -> (p: int)
    requires
        messages_ordered(s),
    ensures
        splits_at(s, created_no_later(m.created_at), p),
{
    let pred = created_no_later(m.created_at);
    assert forall|i: int, j: int| 0 <= i < j < s.len() && pred(#[trigger] s[j]) implies pred(
        #[trigger] s[i]) by {
        assert(s[i].created_at <= s[j].created_at);
    }
    lemma_split_exists(s, pred)
}

/// In a listing with distinct ids, looking up the id at position `i` finds position `i`.
pub proof fn lemma_lookup_at(s: Seq<ConversationView>, i: int)
    requires
        conversations_wf(s),
        0 <= i < s.len(),
    ensures
        has_conversation(s, s[i].id),
        conversation_index(s, s[i].id) == i,
        lookup_conversation(s, s[i].id) == Some(s[i]),
{
    assert(s[i].id == s[i].id);
    let k = conversation_index(s, s[i].id);
    assert(0 <= k < s.len() && s[k].id == s[i].id);
    if k < i {
        assert(s[k].id != s[i].id);
    } else if k > i {
        assert(s[i].id != s[k].id);
    }
}

/// Inserting a conversation with a new id leaves every other lookup unchanged.
pub proof fn lemma_lookup_insert(s: Seq<ConversationView>, p: int, c: ConversationView, x: Seq<char>)
    requires
        conversations_wf(s),
        conversations_wf(s.insert(p, c)),
        0 <= p <= s.len(),
    ensures
        lookup_conversation(s.insert(p, c), x) == if x == c.id {
            Some(c)
        } else {
            lookup_conversation(s, x)
        },
{
    let t = s.insert(p, c);
    lemma_insert_has(s, p, c, x);
    if x == c.id {
        assert(t[p] == c);
        lemma_lookup_at(t, p);
    } else if has_conversation(s, x) {
        let i = conversation_index(s, x);
        lemma_lookup_at(s, i);
        if i < p {
            assert(t[i] == s[i]);
            lemma_lookup_at(t, i);
        } else {
            assert(t[i + 1] == s[i]);
            lemma_lookup_at(t, i + 1);
        }
    }
}

/// Removing position `k` leaves every other lookup unchanged and drops the removed id.
pub proof fn lemma_lookup_remove(s: Seq<ConversationView>, k: int, x: Seq<char>)
    requires
        conversations_wf(s),
        0 <= k < s.len(),
    ensures
        lookup_conversation(s.remove(k), x) == if x == s[k].id {
            None
        } else {
            lookup_conversation(s, x)
        },
{
    let t = s.remove(k);
    lemma_remove_has(s, k, x);
    lemma_remove_wf(s, k);
    if x != s[k].id && has_conversation(s, x) {
        let i = conversation_index(s, x);
        lemma_lookup_at(s, i);
        if i < k {
            assert(t[i] == s[i]);
            lemma_lookup_at(t, i);
        } else {
            assert(i != k);
            assert(t[i - 1] == s[i]);
            lemma_lookup_at(t, i - 1);
        }
    }
}

/// Creating a conversation with a new id keeps the store well formed; the new
/// conversation is then found by its id, every other lookup is unchanged, and
/// no message changes.
pub proof fn law_read_after_create(v: StoreState, c: ConversationView, x: Seq<char>)
    requires
        v.wf(),
        !has_conversation(v.conversations, c.id),
    ensures
        after_create_conversation(v, c).wf(),
        lookup_conversation(after_create_conversation(v, c).conversations, c.id) == Some(c),
        x != c.id ==> lookup_conversation(after_create_conversation(v, c).conversations, x)
            == lookup_conversation(v.conversations, x),
        after_create_conversation(v, c).messages == v.messages,
{
    let p = lemma_conversation_split(v.conversations, c);
    lemma_place_conversation(v.conversations, c, p);
    lemma_lookup_insert(v.conversations, p, c, c.id);
    lemma_lookup_insert(v.conversations, p, c, x);
    let w = after_create_conversation(v, c);
    assert forall|y: Seq<char>| has_conversation(v.conversations, y) implies has_conversation(
        w.conversations,
        y,
    ) by {
        lemma_insert_has(v.conversations, p, c, y);
    }
    lemma_messages_wf_more(v.messages, v.conversations, w.conversations);
}

/// Updating a stored conversation keeps the store well formed; looking it up
/// afterwards gives it with the new title (when one was given), the new
/// update time and its creation time unchanged; every other lookup and every
/// message stay as they were.
pub proof fn law_read_after_update(
    v: StoreState,
    id: Seq<char>,
    title: Option<Seq<char>>,
    now: int,
    x: Seq<char>,
)
    requires
        v.wf(),
        has_conversation(v.conversations, id),
    ensures
        after_update_conversation(v, id, title, now).wf(),
        lookup_conversation(after_update_conversation(v, id, title, now).conversations, id)
            == Some(touched(lookup_conversation(v.conversations, id).unwrap(), title, now)),
        touched(lookup_conversation(v.conversations, id).unwrap(), title, now).created_at
            == lookup_conversation(v.conversations, id).unwrap().created_at,
        x != id ==> lookup_conversation(after_update_conversation(v, id, title, now).conversations, x)
            == lookup_conversation(v.conversations, x),
        after_update_conversation(v, id, title, now).messages == v.messages,
{
    let s = v.conversations;
    let k = conversation_index(s, id);
    let r = s.remove(k);
    let c = touched(s[k], title, now);
    lemma_remove_wf(s, k);
    lemma_remove_has(s, k, id);
    let p = lemma_conversation_split(r, c);
    lemma_place_conversation(r, c, p);
    lemma_lookup_insert(r, p, c, id);
    lemma_lookup_insert(r, p, c, x);
    lemma_lookup_remove(s, k, x);
    let w = after_update_conversation(v, id, title, now);
    assert forall|y: Seq<char>| has_conversation(s, y) implies has_conversation(
        w.conversations,
        y,
    ) by {
        lemma_remove_has(s, k, y);
        lemma_insert_has(r, p, c, y);
    }
    lemma_messages_wf_more(v.messages, s, w.conversations);
}

/// Filtering by a predicate that every element meets changes nothing.
pub proof fn lemma_filter_all(s: Seq<MessageView>, keep: spec_fn(MessageView) -> bool)
    requires
        forall|i: int| 0 <= i < s.len() ==> keep(#[trigger] s[i]),
    ensures
        s.filter(keep) == s,
    decreases s.len(),
{
    reveal(Seq::filter);
    if s.len() > 0 {
        let d = s.drop_last();
        assert forall|i: int| 0 <= i < d.len() implies keep(#[trigger] d[i]) by {
            assert(d[i] == s[i]);
        }
        lemma_filter_all(d, keep);
        assert(keep(s[s.len() - 1]));
        assert(d.push(s.last()) =~= s);
    }
}

/// Deleting a conversation right after creating it gives back the store as
/// it was.
pub proof fn law_create_then_delete(v: StoreState, c: ConversationView)
    requires
        v.wf(),
        !has_conversation(v.conversations, c.id),
    ensures
        after_delete_conversation(after_create_conversation(v, c), c.id) == v,
{
    let p = lemma_conversation_split(v.conversations, c);
    lemma_place_conversation(v.conversations, c, p);
    let t = v.conversations.insert(p, c);
    assert(t[p] == c);
    lemma_lookup_at(t, p);
    assert(t.remove(p) =~= v.conversations);
    assert forall|i: int| 0 <= i < v.messages.len() implies outside_conversation(c.id)(
        #[trigger] v.messages[i],
    ) by {
        assert(has_conversation(v.conversations, v.messages[i].conversation_id));
    }
    lemma_filter_all(v.messages, outside_conversation(c.id));
}

/// Storing a user message and the assistant's reply in a stored
/// conversation keeps the store well formed; both are then listed with the
/// conversation, and its update time is the reply's creation time.
pub proof fn law_pair_stored(
    v: StoreState,
    user_id: Seq<char>,
    assistant_id: Seq<char>,
    cid: Seq<char>,
    question: Seq<char>,
    answer: Seq<char>,
    now: int,
)
    requires
        v.wf(),
        has_conversation(v.conversations, cid),
        !has_message_id(v.messages, user_id),
        !has_message_id(v.messages, assistant_id),
        user_id != assistant_id,
    ensures
        ({
            let u = new_message(user_id, cid, "user"@, question, now);
            let a = new_message(assistant_id, cid, "assistant"@, answer, now + 1);
            let w = after_create_pair(v, u, a);
            &&& w.wf()
            &&& messages_of(w, cid).contains(u)
            &&& messages_of(w, cid).contains(a)
            &&& lookup_conversation(w.conversations, cid).unwrap().updated_at == now + 1
        }),
{
    broadcast use vstd::seq_lib::group_filter_ensures;

    let u = new_message(user_id, cid, "user"@, question, now);
    let a = new_message(assistant_id, cid, "assistant"@, answer, now + 1);
    let w = after_create_pair(v, u, a);
    law_read_after_update(v, cid, None, now + 1, cid);
    let up = after_update_conversation(v, cid, None, now + 1);
    // First message.
    let p1 = lemma_message_split(v.messages, u);
    lemma_place_message(v.messages, u, p1);
    let m1 = v.messages.insert(p1, u);
    assert(!has_message_id(m1, a.id)) by {
        if has_message_id(m1, a.id) {
            let i = choose|i: int| 0 <= i < m1.len() && (#[trigger] m1[i]).id == a.id;
            if m1[i] != u {
                let k = choose|k: int| 0 <= k < v.messages.len() && v.messages[k] == m1[i];
            }
        }
    }
    // Second message.
    let p2 = lemma_message_split(m1, a);
    lemma_place_message(m1, a, p2);
    let m2 = m1.insert(p2, a);
    assert(w.messages == m2);
    assert forall|i: int| 0 <= i < m2.len() implies has_conversation(
        w.conversations,
        (#[trigger] m2[i]).conversation_id,
    ) by {
        if m2[i] != a && m2[i] != u {
            let k1 = choose|k: int| 0 <= k < m1.len() && m1[k] == m2[i];
            let k = choose|k: int| 0 <= k < v.messages.len() && v.messages[k] == m1[k1];
            assert(has_conversation(v.conversations, v.messages[k].conversation_id));
            assert(up.messages[k] == m2[i]);
            assert(messages_owned(up.messages, up.conversations));
        }
    }
    // Both are listed.
    lemma_place_contents(v.messages, u, created_no_later(u.created_at));
    lemma_place_contents(m1, a, created_no_later(a.created_at));
    let ku = choose|k: int| 0 <= k < m1.len() && m1[k] == u;
    assert(m2.contains(m1[ku]));
    let ju = choose|j: int| 0 <= j < m2.len() && m2[j] == u;
    let ja = choose|j: int| 0 <= j < m2.len() && m2[j] == a;
    assert(in_conversation(cid)(m2[ju]));
    assert(in_conversation(cid)(m2[ja]));
    assert(m2.filter(in_conversation(cid)).contains(m2[ju]));
    assert(m2.filter(in_conversation(cid)).contains(m2[ja]));
}

/// Filtering out the messages of `id` and then keeping those of `x` is
/// keeping those of `x`, unless `x` is `id`, when nothing is left.
pub proof fn lemma_filter_twice(s: Seq<MessageView>, id: Seq<char>, x: Seq<char>)
    ensures
        s.filter(outside_conversation(id)).filter(in_conversation(x)) == if x == id {
            Seq::<MessageView>::empty()
        } else {
            s.filter(in_conversation(x))
        },
    decreases s.len(),
{
    reveal(Seq::filter);
    if s.len() > 0 {
        lemma_filter_twice(s.drop_last(), id, x);
        let f = s.drop_last().filter(outside_conversation(id));
        if outside_conversation(id)(s.last()) {
            assert(f.push(s.last()).drop_last() =~= f);
        }
    } else {
        assert(s.filter(outside_conversation(id)).filter(in_conversation(x)) =~= Seq::<
            MessageView,
        >::empty());
    }
}

/// Deleting a stored conversation keeps the store well formed, removes it
/// and all its messages, and leaves every other conversation and the
/// messages of every other conversation as they were.
pub proof fn law_delete_cascades(v: StoreState, id: Seq<char>, x: Seq<char>)
    requires
        v.wf(),
        has_conversation(v.conversations, id),
    ensures
        after_delete_conversation(v, id).wf(),
        lookup_conversation(after_delete_conversation(v, id).conversations, id) is None,
        messages_of(after_delete_conversation(v, id), id).len() == 0,
        x != id ==> lookup_conversation(after_delete_conversation(v, id).conversations, x)
            == lookup_conversation(v.conversations, x),
        x != id ==> messages_of(after_delete_conversation(v, id), x) == messages_of(v, x),
{
    let s = v.conversations;
    let k = conversation_index(s, id);
    lemma_lookup_remove(s, k, id);
    lemma_lookup_remove(s, k, x);
    lemma_filter_twice(v.messages, id, x);
    lemma_filter_twice(v.messages, id, id);
    lemma_remove_wf(s, k);
    let w = after_delete_conversation(v, id);
    let f = v.messages.filter(outside_conversation(id));
    lemma_filter_ordered(v.messages, outside_conversation(id));
    assert forall|i: int| 0 <= i < f.len() implies has_conversation(
        w.conversations,
        (#[trigger] f[i]).conversation_id,
    ) by {
        broadcast use vstd::seq_lib::group_filter_ensures;
        assert(outside_conversation(id)(f[i]));
        assert(v.messages.contains(f[i]));
        lemma_remove_has(s, k, f[i].conversation_id);
    }
}

/// Filtering a placement by a predicate that the placed element fails is
/// filtering the original; by one it meets, the element is in the result.
pub proof fn lemma_filter_place(
    s: Seq<MessageView>,
    m: MessageView,
    stays_before: spec_fn(MessageView) -> bool,
    keep: spec_fn(MessageView) -> bool,
)
    ensures
        !keep(m) ==> place_after(s, m, stays_before).filter(keep) == s.filter(keep),
        keep(m) ==> place_after(s, m, stays_before).filter(keep).contains(m),
    decreases s.len(),
{
    reveal(Seq::filter);
    let pl = place_after(s, m, stays_before);
    if s.len() == 0 || stays_before(s.last()) {
        assert(pl.drop_last() =~= s);
        if keep(m) {
            assert(pl.filter(keep) == s.filter(keep).push(m));
            assert(pl.filter(keep)[pl.filter(keep).len() - 1] == m);
        }
    } else {
        let d = s.drop_last();
        lemma_filter_place(d, m, stays_before, keep);
        let q = place_after(d, m, stays_before);
        assert(pl.drop_last() =~= q);
        assert(pl.last() == s.last());
        if keep(m) {
            let fq = q.filter(keep);
            let i = choose|i: int| 0 <= i < fq.len() && fq[i] == m;
            if keep(s.last()) {
                assert(pl.filter(keep) == fq.push(s.last()));
                assert(pl.filter(keep)[i] == m);
            }
        }
    }
}

/// Storing a message in a stored conversation keeps the store well formed;
/// the message is then listed with its conversation, the conversation's
/// update time is the message's creation time, and the messages of every
/// other conversation stay as they were.
pub proof fn law_message_listed_after_create(v: StoreState, m: MessageView, x: Seq<char>)
    requires
        v.wf(),
        has_conversation(v.conversations, m.conversation_id),
        !has_message_id(v.messages, m.id),
    ensures
        after_create_message(v, m).wf(),
        messages_of(after_create_message(v, m), m.conversation_id).contains(m),
        lookup_conversation(after_create_message(v, m).conversations, m.conversation_id).unwrap().updated_at
            == m.created_at,
        x != m.conversation_id ==> messages_of(after_create_message(v, m), x) == messages_of(v, x),
{
    let w = after_create_message(v, m);
    law_read_after_update(v, m.conversation_id, None, m.created_at, m.conversation_id);
    let u = after_update_conversation(v, m.conversation_id, None, m.created_at);
    lemma_filter_place(v.messages, m, created_no_later(m.created_at), in_conversation(m.conversation_id));
    lemma_filter_place(v.messages, m, created_no_later(m.created_at), in_conversation(x));
    let p = lemma_message_split(v.messages, m);
    lemma_place_message(v.messages, m, p);
    let t = v.messages.insert(p, m);
    assert(has_conversation(u.conversations, m.conversation_id));
    assert forall|i: int| 0 <= i < t.len() implies has_conversation(
        w.conversations,
        (#[trigger] t[i]).conversation_id,
    ) by {
        if t[i] != m {
            let k = choose|k: int| 0 <= k < v.messages.len() && v.messages[k] == t[i];
            assert(has_conversation(v.conversations, v.messages[k].conversation_id));
            lemma_remove_has(v.conversations, conversation_index(v.conversations, m.conversation_id), t[i].conversation_id);
            assert(has_conversation(u.conversations, t[i].conversation_id)) by {
                assert(messages_owned(u.messages, u.conversations));
                assert(u.messages[k] == t[i]);
            }
        }
    }
}

/// A well-formed store lists conversations most recently updated first and
/// the messages of each conversation oldest first.
pub proof fn law_listing_order(v: StoreState, cid: Seq<char>)
    requires
        v.wf(),
    ensures
        forall|i: int, j: int|
            0 <= i < j < v.conversations.len() ==> (#[trigger] v.conversations[i]).updated_at
                >= (#[trigger] v.conversations[j]).updated_at,
        forall|i: int, j: int|
            0 <= i < j < messages_of(v, cid).len() ==> (#[trigger] messages_of(v, cid)[i]).created_at
                <= (#[trigger] messages_of(v, cid)[j]).created_at,
{
    lemma_filter_ordered(v.messages, in_conversation(cid));
}

/// Deleting a stored message keeps the store well formed, and the message
/// can no longer be found.
pub proof fn law_delete_message(v: StoreState, cid: Seq<char>, id: Seq<char>)
    requires
        v.wf(),
        has_message(v.messages, cid, id),
    ensures
        after_delete_message(v, cid, id).wf(),
        lookup_message(after_delete_message(v, cid, id).messages, cid, id) is None,
        after_delete_message(v, cid, id).conversations == v.conversations,
{
    let s = v.messages;
    let k = message_index(s, cid, id);
    let t = s.remove(k);
    assert forall|a: int, b: int| 0 <= a < b < t.len() implies (#[trigger] t[a]).id != (
    #[trigger] t[b]).id && t[a].created_at <= t[b].created_at by {
        let x = if a < k { a } else { a + 1 };
        let y = if b < k { b } else { b + 1 };
        assert(t[a] == s[x] && t[b] == s[y]);
    }
    assert forall|a: int| 0 <= a < t.len() implies has_conversation(
        v.conversations,
        (#[trigger] t[a]).conversation_id,
    ) by {
        let x = if a < k { a } else { a + 1 };
        assert(t[a] == s[x]);
    }
    if has_message(t, cid, id) {
        let a = choose|a: int| 0 <= a < t.len() && (#[trigger] t[a]).id == id && t[a].conversation_id == cid;
        let x = if a < k { a } else { a + 1 };
        assert(t[a] == s[x]);
        assert(x != k);
        if x < k {
            assert(s[x].id != s[k].id);
        } else {
            assert(s[k].id != s[x].id);
        }
    }
}

} // verus!
