//! Streaming a reply: checking the request, the history sent upstream, the
//! server-sent events forwarded to the client, and when the reply is kept.
use vstd::prelude::*;
use crate::error::{is_database_error, AppError};
use crate::json::{json_quote, json_quoted, json_str_at, json_string_at};
use crate::models::{Message, MessageView};
use crate::openrouter::{after_data_prefix, strip_data_prefix, ChatMessage, ChatMessageView, StreamEvent};
use crate::repository::model::{
    after_create_message, conversation_missing, foreign_key_failed, has_conversation,
    has_message_id, message_id_taken, messages_of, new_message, StoreState,
};
use crate::repository::{message_views, uuid_v4_text, Repository};
use crate::text::{chars_of, lines, lines_of, string_views};
use crate::validation::{content_refusal, validate_message_content};

verus! {

/// The body of a request to stream a reply.
pub struct StreamRequest {
    pub content: String,
}

// ---------------------------------------------------------------------------
// Before the stream
// ---------------------------------------------------------------------------

/// The history sent upstream: the stored messages of the conversation, as
/// role and content, then the new user message.
pub open spec fn upstream_history(stored: Seq<MessageView>, content: Seq<char>) -> Seq<ChatMessageView> {
    Seq::new(
        stored.len(),
        |i: int| ChatMessageView { role: stored[i].role, content: stored[i].content },
    ).push(ChatMessageView { role: "user"@, content })
}

/// The history sent upstream keeps every stored message, oldest first, with
/// its role and content, and then adds the new message as the user's: one
/// entry more than there are stored messages.
pub proof fn law_history_is_whole(stored: Seq<MessageView>, content: Seq<char>)
    ensures
        upstream_history(stored, content).len() == stored.len() + 1,
        forall|i: int|
            0 <= i < stored.len() ==> (#[trigger] upstream_history(stored, content)[i]).role
                == stored[i].role && upstream_history(stored, content)[i].content == stored[i].content,
        upstream_history(stored, content)[stored.len() as int].role == "user"@,
        upstream_history(stored, content)[stored.len() as int].content == content,
{
}

/// The views of a sequence of chat messages.
pub open spec fn chat_views(s: Seq<ChatMessage>) -> Seq<ChatMessageView> {
    s.map_values(|m: ChatMessage| m@)
}

/// The history to send upstream for `history` and the new message `content`.
pub fn upstream_messages(history: &Vec<Message>, content: &str) -> (r: Vec<ChatMessage>)
    ensures
        chat_views(r@) == upstream_history(message_views(history@), content@),
        r@.len() == history@.len() + 1,
        forall|i: int|
            0 <= i < history@.len() ==> (#[trigger] r@[i]).role@ == history@[i].role@ && r@[i].content@
                == history@[i].content@,
        r@[history@.len() as int].role@ == "user"@,
        r@[history@.len() as int].content@ == content@,
{
    let ghost stored = message_views(history@);
    let mut out: Vec<ChatMessage> = Vec::new();
    let mut i: usize = 0;
    while i < history.len()
        invariant
            i <= history.len(),
            stored == message_views(history@),
            chat_views(out@) == Seq::new(
                i as nat,
                |k: int| ChatMessageView { role: stored[k].role, content: stored[k].content },
            ),
        decreases history.len() - i,
    {
        let m = ChatMessage { role: history[i].role.clone(), content: history[i].content.clone() };
        let ghost before = out@;
        out.push(m);
        proof {
            assert(stored[i as int] == history@[i as int]@);
            assert(m@ == ChatMessageView { role: stored[i as int].role, content: stored[i as int].content });
            assert(chat_views(out@) =~= chat_views(before).push(m@));
            assert(chat_views(out@) =~= Seq::new(
                (i + 1) as nat,
                |k: int| ChatMessageView { role: stored[k].role, content: stored[k].content },
            ));
        }
        i = i + 1;
    }
    let last = ChatMessage { role: String::from_str("user"), content: String::from_str(content) };
    let ghost before = out@;
    out.push(last);
    assert(chat_views(out@) =~= chat_views(before).push(last@));
    proof {
        let h = upstream_history(message_views(history@), content@);
        law_history_is_whole(message_views(history@), content@);
        assert(chat_views(out@).len() == out@.len());
        assert forall|i: int| 0 <= i < history@.len() implies (#[trigger] out@[i]).role@
            == history@[i].role@ && out@[i].content@ == history@[i].content@ by {
            assert(chat_views(out@)[i] == out@[i]@);
            assert(message_views(history@)[i] == history@[i]@);
        }
        assert(chat_views(out@)[history@.len() as int] == out@[history@.len() as int]@);
        reveal_strlit("user");
    }
    out
}

/// Checks a request to stream a reply in the conversation `conversation_id`
/// and gives the history to send upstream: `BadRequest` for a refused
/// message, `NotFound` for a missing conversation, otherwise the stored
/// messages followed by the new one.
pub fn prepare_stream_chat(repo: &Repository, conversation_id: &str, body: &StreamRequest) -> (r:
    Result<Vec<ChatMessage>, AppError>)
    requires
        repo@.wf(),
    ensures
        match content_refusal(body.content@) {
            Some(msg) => crate::error::is_bad_request(r, msg),
            None => if has_conversation(repo@.conversations, conversation_id@) {
                r matches Ok(h) && chat_views(h@) == upstream_history(
                    messages_of(repo@, conversation_id@),
                    body.content@,
                )
            } else {
                crate::error::is_not_found(r, conversation_missing(conversation_id@))
            },
        },
{
    validate_message_content(body.content.as_str())?;
    repo.get_conversation(conversation_id)?;
    let history = repo.list_messages(conversation_id);
    Ok(upstream_messages(&history, body.content.as_str()))
}

/// What storing a message with the id `id` in the conversation `cid` does
/// to the store `before`, giving `after` and the result `r`: refused, with
/// the store unchanged, when the id is taken or the conversation is missing;
/// otherwise the message is stored and returned.
pub open spec fn message_stored(
    before: StoreState,
    after: StoreState,
    r: Result<Message, AppError>,
    id: Seq<char>,
    cid: Seq<char>,
    role: Seq<char>,
    content: Seq<char>,
    now: int,
) -> bool {
    if has_message_id(before.messages, id) {
        is_database_error(r, message_id_taken()) && after == before
    } else if !has_conversation(before.conversations, cid) {
        is_database_error(r, foreign_key_failed()) && after == before
    } else {
        &&& r matches Ok(m)
        &&& r->Ok_0@ == new_message(id, cid, role, content, now)
        &&& after == after_create_message(before, r->Ok_0@)
    }
}

/// Once the upstream stream has been asked for: when it failed to open
/// (`upstream_failure` holds what went wrong), an `OpenRouter` error and no
/// change to the store; when it opened, the user's message is stored, created
/// at `now` with the UUID made from `random` as its id.
pub fn begin_stream(
    repo: &mut Repository,
    conversation_id: &str,
    body: &StreamRequest,
    upstream_failure: Option<String>,
    random: [u8; 16],
    now: i64,
) -> (r: Result<Message, AppError>)
    requires
        old(repo)@.wf(),
    ensures
        final(repo)@.wf(),
        match upstream_failure {
            Some(t) => r matches Err(AppError::OpenRouter(m)) && m@ == t@ && final(repo)@ == old(
                repo,
            )@,
            None => message_stored(
                old(repo)@,
                final(repo)@,
                r,
                uuid_v4_text(random@),
                conversation_id@,
                "user"@,
                body.content@,
                now as int,
            ),
        },
{
    if let Some(t) = upstream_failure {
        return Err(AppError::OpenRouter(t));
    }
    let r = repo.create_message(conversation_id, "user", body.content.as_str(), random, now);
    proof {
        reveal_strlit("user");
    }
    r
}

/// Once relaying has stopped: when the relay keeps a reply, it is stored as
/// the assistant's message, created at `now` with the UUID made from `random`
/// as its id; otherwise nothing is stored and nothing returned.
pub fn finish_stream(
    repo: &mut Repository,
    conversation_id: &str,
    relay: &ChatRelay,
    random: [u8; 16],
    now: i64,
) -> (r: Option<Result<Message, AppError>>)
    requires
        old(repo)@.wf(),
    ensures
        final(repo)@.wf(),
        match kept_reply(relay@) {
            None => r is None && final(repo)@ == old(repo)@,
            Some(t) => r matches Some(res) && message_stored(
                old(repo)@,
                final(repo)@,
                res,
                uuid_v4_text(random@),
                conversation_id@,
                "assistant"@,
                t,
                now as int,
            ),
        },
{
    match relay.assistant_reply() {
        None => None,
        Some(reply) => {
            let r = repo.create_message(conversation_id, "assistant", reply.as_str(), random, now);
            proof {
                reveal_strlit("assistant");
            }
            Some(r)
        },
    }
}

// ---------------------------------------------------------------------------
// The events forwarded to the client
// ---------------------------------------------------------------------------

/// The message a client sees for an error in the middle of a stream.
pub open spec fn stream_error_text(e: AppError) -> Seq<char> {
    match e {
        AppError::OpenRouter(_) => "Upstream model service error"@,
        AppError::Database(_) => "A database error occurred"@,
        AppError::Internal(_) => "An internal server error occurred"@,
        _ => "Stream error"@,
    }
}

/// The message a client sees for an error in the middle of a stream.
pub fn stream_error_message(error: &AppError) -> (m: &'static str)
    ensures
        m@ == stream_error_text(*error),
{
    match error {
        AppError::OpenRouter(_) => "Upstream model service error",
        AppError::Database(_) => "A database error occurred",
        AppError::Internal(_) => "An internal server error occurred",
        AppError::NotFound(_) | AppError::BadRequest(_) | AppError::Unauthorized => "Stream error",
    }
}

/// The server-sent event forwarded for one upstream event: a `delta` with the
/// piece of the reply, `done`, or an `error` with the message for clients.
pub open spec fn frame_for(event: Result<StreamEvent, AppError>) -> Seq<char> {
    match event {
        Ok(StreamEvent::Delta(d)) => "data: {\"type\":\"delta\",\"content\":"@ + json_quoted(d@)
            + "}\n\n"@,
        Ok(StreamEvent::Done) => "data: {\"type\":\"done\"}\n\n"@,
        Err(e) => "data: {\"type\":\"error\",\"message\":"@ + json_quoted(stream_error_text(e))
            + "}\n\n"@,
    }
}

/// The server-sent event forwarded for one upstream event.
pub fn sse_frame(event: &Result<StreamEvent, AppError>) -> (f: String)
    ensures
        f@ == frame_for(*event),
{
    match event {
        Ok(StreamEvent::Delta(d)) => {
            let mut f = String::from_str("data: {\"type\":\"delta\",\"content\":");
            f.append(json_quote(d.as_str()).as_str());
            f.append("}\n\n");
            f
        },
        Ok(StreamEvent::Done) => String::from_str("data: {\"type\":\"done\"}\n\n"),
        Err(e) => {
            let mut f = String::from_str("data: {\"type\":\"error\",\"message\":");
            f.append(json_quote(stream_error_message(e)).as_str());
            f.append("}\n\n");
            f
        },
    }
}

/// The data of the first line of `ls` that is a data line.
pub open spec fn first_data(ls: Seq<Seq<char>>) -> Option<Seq<char>>
    decreases ls.len(),
{
    if ls.len() == 0 {
        None
    } else {
        match after_data_prefix(ls[0]) {
            Some(d) => Some(d),
            None => first_data(ls.drop_first()),
        }
    }
}

/// Whether the event `sse` has the type `expected`: its data (what follows
/// `data: ` at its start, or else on its first data line) is JSON whose
/// `type` is the string `expected`.
pub open spec fn frame_type_is(sse: Seq<char>, expected: Seq<char>) -> bool {
    let data = match after_data_prefix(sse) {
        Some(d) => Some(d),
        None => first_data(lines(sse)),
    };
    match data {
        Some(d) => json_string_at(d, "/type"@) == Some(expected),
        None => false,
    }
}

// ---------------------------------------------------------------------------
// Relaying the stream
// ---------------------------------------------------------------------------

/// What an upstream event is to the relay: a piece of the reply, its end,
/// or a failure.
pub enum EventKind {
    Piece,
    End,
    Failure,
}

/// The kind of an upstream event.
pub open spec fn kind_of(event: Result<StreamEvent, AppError>) -> EventKind {
    match event {
        Ok(StreamEvent::Delta(_)) => EventKind::Piece,
        Ok(StreamEvent::Done) => EventKind::End,
        Err(_) => EventKind::Failure,
    }
}

/// Where the relay of one reply stands: the reply received so far, the kind
/// of the event last forwarded, whether a `done` event reached the client,
/// whether the client is still there, and whether relaying has stopped.
pub struct RelayView {
    pub buffer: Seq<char>,
    pub pending: EventKind,
    pub completed: bool,
    pub client_connected: bool,
    pub finished: bool,
}

/// The relay of one reply from upstream to the client.
pub struct ChatRelay {
    buffer: String,
    pending: EventKind,
    completed: bool,
    client_connected: bool,
    finished: bool,
}

impl View for ChatRelay {
    type V = RelayView;

    closed spec fn view(&self) -> RelayView {
        RelayView {
            buffer: self.buffer@,
            pending: self.pending,
            completed: self.completed,
            client_connected: self.client_connected,
            finished: self.finished,
        }
    }
}

/// The piece of the reply that an upstream event carries.
pub open spec fn delta_text(event: Result<StreamEvent, AppError>) -> Seq<char> {
    match event {
        Ok(StreamEvent::Delta(d)) => d@,
        _ => Seq::<char>::empty(),
    }
}

/// The relay before any event.
pub open spec fn relay_start() -> RelayView {
    RelayView {
        buffer: Seq::<char>::empty(),
        pending: EventKind::Piece,
        completed: false,
        client_connected: true,
        finished: false,
    }
}

/// The relay after turning an upstream event into the event sent on: the
/// piece it carries joins the reply, and its kind awaits delivery.
pub open spec fn after_forward(v: RelayView, event: Result<StreamEvent, AppError>) -> RelayView {
    RelayView { buffer: v.buffer + delta_text(event), pending: kind_of(event), ..v }
}

/// The relay after trying to send the event last forwarded: a failed send
/// means the client left; a sent `done` event completes the reply; a sent
/// `error` event ends the relay; a sent piece lets it go on.
pub open spec fn after_delivery(v: RelayView, sent: bool) -> RelayView {
    if !sent {
        RelayView { client_connected: false, finished: true, ..v }
    } else {
        match v.pending {
            EventKind::End => RelayView { completed: true, finished: true, ..v },
            EventKind::Failure => RelayView { finished: true, ..v },
            EventKind::Piece => v,
        }
    }
}

/// The relay after the upstream stream ended.
pub open spec fn after_upstream_end(v: RelayView) -> RelayView {
    RelayView { finished: true, ..v }
}

/// The reply kept once relaying stops: the received text, when a `done`
/// event reached the client, the client stayed, and the text is not empty.
pub open spec fn kept_reply(v: RelayView) -> Option<Seq<char>> {
    if v.completed && v.client_connected && v.buffer.len() > 0 {
        Some(v.buffer)
    } else {
        None
    }
}

impl ChatRelay {
    /// A relay that has seen no event.
    pub fn new() -> (r: ChatRelay)
        ensures
            r@ == relay_start(),
    {
        ChatRelay {
            buffer: String::new(),
            pending: EventKind::Piece,
            completed: false,
            client_connected: true,
            finished: false,
        }
    }

    /// Turns an upstream event into the event to send to the client, and
    /// adds the piece of the reply it carries to the text received so far.
    pub fn forward(&mut self, event: &Result<StreamEvent, AppError>) -> (frame: String)
        ensures
            frame@ == frame_for(*event),
            final(self)@ == after_forward(old(self)@, *event),
    {
        match event {
            Ok(StreamEvent::Delta(d)) => {
                self.buffer.append(d.as_str());
                self.pending = EventKind::Piece;
            },
            Ok(StreamEvent::Done) => {
                assert(self.buffer@ + delta_text(*event) =~= self.buffer@);
                self.pending = EventKind::End;
            },
            Err(_) => {
                assert(self.buffer@ + delta_text(*event) =~= self.buffer@);
                self.pending = EventKind::Failure;
            },
        }
        sse_frame(event)
    }

    /// Records whether the event last forwarded reached the client; the
    /// result says whether to go on relaying.
    pub fn delivered(&mut self, sent: bool) -> (go_on: bool)
        requires
            !old(self)@.finished,
        ensures
            final(self)@ == after_delivery(old(self)@, sent),
            go_on == !final(self)@.finished,
    {
        if !sent {
            self.client_connected = false;
            self.finished = true;
        } else {
            match self.pending {
                EventKind::End => {
                    self.completed = true;
                    self.finished = true;
                },
                EventKind::Failure => {
                    self.finished = true;
                },
                EventKind::Piece => {},
            }
        }
        !self.finished
    }

    /// Records that the upstream stream ended.
    pub fn upstream_ended(&mut self)
        ensures
            final(self)@ == after_upstream_end(old(self)@),
    {
        self.finished = true;
    }

    /// Whether relaying has stopped.
    pub fn is_finished(&self) -> (b: bool)
        ensures
            b == self@.finished,
    {
        self.finished
    }

    /// The assistant reply to store once relaying stops, if any.
    pub fn assistant_reply(&self) -> (r: Option<String>)
        ensures
            match kept_reply(self@) {
                Some(t) => r matches Some(s) && s@ == t,
                None => r is None,
            },
    {
        if self.completed && self.client_connected && !self.buffer.as_str().is_empty() {
            Some(self.buffer.clone())
        } else {
            None
        }
    }
}

// ---------------------------------------------------------------------------
// A whole stream, every event reaching the client
// ---------------------------------------------------------------------------

/// Whether an upstream event ends the relay (`done` or an error).
pub open spec fn ends_relay(event: Result<StreamEvent, AppError>) -> bool {
    !(event matches Ok(StreamEvent::Delta(_)))
}

/// The position of the first event of `es` that ends the relay, or the
/// length of `es` when none does.
pub open spec fn stop_index(es: Seq<Result<StreamEvent, AppError>>) -> int
    decreases es.len(),
{
    if es.len() == 0 {
        0
    } else if stop_index(es.drop_last()) < es.len() - 1 {
        stop_index(es.drop_last())
    } else if ends_relay(es.last()) {
        es.len() - 1
    } else {
        es.len() as int
    }
}

/// Whether the first event of `es` that ends the relay is `done`.
pub open spec fn stopped_by_done(es: Seq<Result<StreamEvent, AppError>>) -> bool {
    stop_index(es) < es.len() && (es[stop_index(es)] matches Ok(StreamEvent::Done))
}

/// The pieces of the reply that `es` carries, joined in order.
pub open spec fn pieces(es: Seq<Result<StreamEvent, AppError>>) -> Seq<char>
    decreases es.len(),
{
    if es.len() == 0 {
        Seq::<char>::empty()
    } else {
        pieces(es.drop_last()) + delta_text(es.last())
    }
}

/// The relay after offering it the events `es` in order, each forwarded
/// and delivered, until it stops.
pub open spec fn relay_run(es: Seq<Result<StreamEvent, AppError>>) -> RelayView
    decreases es.len(),
{
    if es.len() == 0 {
        relay_start()
    } else {
        let v = relay_run(es.drop_last());
        if v.finished {
            v
        } else {
            after_delivery(after_forward(v, es.last()), true)
        }
    }
}

/// The relay once the upstream stream of `es` has ended.
pub open spec fn relay_outcome(es: Seq<Result<StreamEvent, AppError>>) -> RelayView {
    let v = relay_run(es);
    if v.finished {
        v
    } else {
        after_upstream_end(v)
    }
}

/// The events sent to the client for `es`: one for each event up to and
/// including the first that ends the relay.
pub open spec fn relay_frames(es: Seq<Result<StreamEvent, AppError>>) -> Seq<Seq<char>> {
    let n = if stop_index(es) < es.len() {
        stop_index(es) + 1
    } else {
        es.len() as int
    };
    Seq::new(n as nat, |i: int| frame_for(es[i]))
}

/// The string views of a sequence of strings.
pub open spec fn frame_views(s: Seq<String>) -> Seq<Seq<char>> {
    s.map_values(|f: String| f@)
}

/// Relays the events `events`, every send reaching the client: the events
/// sent, and the relay once it has stopped.
pub fn relay_stream(events: &Vec<Result<StreamEvent, AppError>>) -> (r: (Vec<String>, ChatRelay))
    ensures
        frame_views(r.0@) == relay_frames(events@),
        r.1@ == relay_outcome(events@),
{
    let ghost es = events@;
    let mut relay = ChatRelay::new();
    let mut frames: Vec<String> = Vec::new();
    let mut i: usize = 0;
    proof {
        assert(es.take(0) =~= Seq::<Result<StreamEvent, AppError>>::empty());
        lemma_relay_run(es.take(0));
    }
    while i < events.len() && !relay.is_finished()
        invariant
            i <= events.len(),
            es == events@,
            relay@ == relay_run(es.take(i as int)),
            frame_views(frames@) == Seq::new(i as nat, |k: int| frame_for(es[k])),
            relay@.finished ==> 0 < i && stop_index(es.take(i as int)) == i - 1,
            !relay@.finished ==> stop_index(es.take(i as int)) == i,
        decreases events.len() - i,
    {
        let ghost before = frames@;
        let frame = relay.forward(&events[i]);
        frames.push(frame);
        let _go_on = relay.delivered(true);
        proof {
            let t = es.take(i + 1);
            assert(t.drop_last() =~= es.take(i as int));
            assert(t.last() == es[i as int]);
            assert(frame_views(frames@) =~= frame_views(before).push(frame_for(es[i as int])));
            assert(frame_views(frames@) =~= Seq::new((i + 1) as nat, |k: int| frame_for(es[k])));
            lemma_relay_run(t);
        }
        i = i + 1;
    }
    proof {
        lemma_stop_prefix(es, i as int);
        lemma_run_prefix(es, i as int);
        if !relay@.finished {
            assert(es.take(i as int) =~= es);
        }
        assert(frame_views(frames@) =~= relay_frames(es));
    }
    if !relay.is_finished() {
        relay.upstream_ended();
    }
    (frames, relay)
}

/// What [`relay_run`] makes of `es`: the client stays, the relay stops
/// exactly when some event ends it, the text is the pieces before the first
/// such event, and the reply is completed exactly when that event is `done`.
pub proof fn lemma_relay_run(es: Seq<Result<StreamEvent, AppError>>)
    ensures
        0 <= stop_index(es) <= es.len(),
        relay_run(es).client_connected,
        relay_run(es).finished <==> stop_index(es) < es.len(),
        relay_run(es).completed <==> stopped_by_done(es),
        relay_run(es).buffer == pieces(es.take(stop_index(es))),
        !relay_run(es).finished ==> relay_run(es).pending is Piece || es.len() == 0,
    decreases es.len(),
{
    if es.len() == 0 {
        assert(es.take(0) =~= es);
    } else {
        let p = es.drop_last();
        lemma_relay_run(p);
        assert(es.take(p.len() as int) =~= p);
        if stop_index(p) < p.len() {
            assert(es.take(stop_index(p)) =~= p.take(stop_index(p)));
            assert(es[stop_index(p)] == p[stop_index(p)]);
        } else {
            assert(p.take(stop_index(p)) =~= p);
            if !ends_relay(es.last()) {
                assert(es.take(es.len() as int) =~= es);
                assert(es.drop_last() == p);
            }
        }
    }
}

/// Once the relay has stopped on a prefix of `es`, the rest of `es` changes
/// nothing.
proof fn lemma_run_prefix(es: Seq<Result<StreamEvent, AppError>>, n: int)
    requires
        0 <= n <= es.len(),
    ensures
        relay_run(es.take(n)).finished ==> relay_run(es) == relay_run(es.take(n)),
    decreases es.len() - n,
{
    if n < es.len() {
        lemma_run_prefix(es, n + 1);
        let t = es.take(n + 1);
        assert(t.drop_last() =~= es.take(n));
    } else {
        assert(es.take(n) =~= es);
    }
}

/// `stop_index` on a prefix: below the prefix's end it agrees with the
/// whole sequence.
proof fn lemma_stop_prefix(es: Seq<Result<StreamEvent, AppError>>, n: int)
    requires
        0 <= n <= es.len(),
    ensures
        stop_index(es.take(n)) < n ==> stop_index(es) == stop_index(es.take(n)),
        stop_index(es.take(n)) >= n ==> stop_index(es) >= n,
    decreases es.len() - n,
{
    if n < es.len() {
        lemma_stop_prefix(es, n + 1);
        let t = es.take(n + 1);
        assert(t.drop_last() =~= es.take(n));
    } else {
        assert(es.take(n) =~= es);
    }
}

/// Relaying a whole stream whose every event reaches the client: the events
/// sent are those up to and including the first `done` or error event; the
/// client stays; the reply is completed exactly when that first event is
/// `done`; and the reply kept is then the pieces before it, joined in order,
/// when they are not empty. Without such an event nothing is kept.
pub proof fn law_relay_whole_stream(es: Seq<Result<StreamEvent, AppError>>)
    ensures
        0 <= stop_index(es) <= es.len(),
        forall|i: int| 0 <= i < stop_index(es) ==> !ends_relay(#[trigger] es[i]),
        stop_index(es) < es.len() ==> ends_relay(es[stop_index(es)]),
        relay_frames(es).len() == if stop_index(es) < es.len() {
            stop_index(es) + 1
        } else {
            es.len() as int
        },
        relay_outcome(es).client_connected,
        relay_outcome(es).completed <==> stopped_by_done(es),
        relay_outcome(es).buffer == pieces(es.take(stop_index(es))),
        kept_reply(relay_outcome(es)) == (if stopped_by_done(es) && pieces(
            es.take(stop_index(es)),
        ).len() > 0 {
            Some(pieces(es.take(stop_index(es))))
        } else {
            None::<Seq<char>>
        }),
    decreases es.len(),
{
    lemma_relay_run(es);
    if es.len() > 0 {
        let p = es.drop_last();
        law_relay_whole_stream(p);
        assert forall|i: int| 0 <= i < stop_index(es) implies !ends_relay(#[trigger] es[i]) by {
            if i < p.len() {
                assert(es[i] == p[i]);
            }
        }
        if stop_index(p) < p.len() {
            assert(es[stop_index(p)] == p[stop_index(p)]);
        }
    }
}

/// Once the client has left, no step brings it back, and no reply is kept.
pub proof fn law_left_client_keeps_nothing(
    v: RelayView,
    event: Result<StreamEvent, AppError>,
    sent: bool,
)
    requires
        !v.client_connected,
    ensures
        !after_forward(v, event).client_connected,
        !after_delivery(v, sent).client_connected,
        !after_upstream_end(v).client_connected,
        kept_reply(v) is None,
{
}

/// A reply is completed only by delivering a `done` event to the client: no
/// other step completes it.
pub proof fn law_completed_only_by_done(
    v: RelayView,
    event: Result<StreamEvent, AppError>,
    sent: bool,
)
    requires
        !v.completed,
    ensures
        !after_forward(v, event).completed,
        after_forward(v, event).pending == kind_of(event),
        after_delivery(v, sent).completed ==> sent && v.pending is End,
        !after_upstream_end(v).completed,
{
}

/// The text kept is the pieces of the reply in the order they came: each
/// forwarded event appends its piece, and nothing else changes the text.
pub proof fn law_reply_is_the_pieces_in_order(
    v: RelayView,
    e1: Result<StreamEvent, AppError>,
    e2: Result<StreamEvent, AppError>,
    sent: bool,
)
    ensures
        after_forward(after_forward(v, e1), e2).buffer == v.buffer + delta_text(e1) + delta_text(e2),
        after_delivery(v, sent).buffer == v.buffer,
        after_upstream_end(v).buffer == v.buffer,
{
    assert(v.buffer + delta_text(e1) + delta_text(e2) =~= (v.buffer + delta_text(e1)) + delta_text(e2));
}

/// The data of the first data line among `ls`.
fn first_data_line(ls: &Vec<String>) -> (r: Option<String>)
    ensures
        match first_data(string_views(ls@)) {
            Some(d) => r matches Some(s) && s@ == d,
            None => r is None,
        },
{
    let ghost all = string_views(ls@);
    assert(all.skip(0) =~= all);
    let mut i: usize = 0;
    while i < ls.len()
        invariant
            i <= ls.len(),
            string_views(ls@) == all,
            first_data(all) == first_data(all.skip(i as int)),
        decreases ls.len() - i,
    {
        proof {
            assert(all.skip(i as int).drop_first() =~= all.skip(i + 1));
            assert(all.skip(i as int)[0] == ls@[i as int]@);
        }
        let line = chars_of(ls[i].as_str());
        if let Some(d) = strip_data_prefix(&line) {
            return Some(d);
        }
        i = i + 1;
    }
    assert(all.skip(i as int).len() == 0);
    None
}

/// Whether the event `sse` has the type `expected`.
pub fn sse_type_matches(sse: &str, expected: &str) -> (b: bool)
    ensures
        b == frame_type_is(sse@, expected@),
{
    let cs = chars_of(sse);
    let data = match strip_data_prefix(&cs) {
        Some(d) => Some(d),
        None => first_data_line(&lines_of(&cs)),
    };
    match data {
        Some(d) => match json_str_at(d.as_str(), "/type") {
            Some(t) => t.as_str().eq(expected),
            None => false,
        },
        None => false,
    }
}

} // verus!
