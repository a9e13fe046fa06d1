//! The upstream chat model: the messages sent to it, the events it streams
//! back, how one chunk of its event stream is read, and a scripted client.
use vstd::prelude::*;
use vstd::utf8::{decode_utf8, valid_utf8};
use crate::error::AppError;
use crate::json::{json_str_at, json_string_at};
use crate::text::{chars_of, lines, lines_of, string_of, string_views, trim, trimmed};

verus! {

/// One message of the history sent upstream.
#[derive(Debug)]
pub struct ChatMessage {
    pub role: String,
    pub content: String,
}

/// The mathematical value of a [`ChatMessage`].
pub struct ChatMessageView {
    pub role: Seq<char>,
    pub content: Seq<char>,
}

impl View for ChatMessage {
    type V = ChatMessageView;

    open spec fn view(&self) -> ChatMessageView {
        ChatMessageView { role: self.role@, content: self.content@ }
    }
}

/// One event of the upstream stream: a piece of the reply, or its end.
#[derive(Debug)]
pub enum StreamEvent {
    Delta(String),
    Done,
}

/// The mathematical value of a [`StreamEvent`].
pub enum StreamEventView {
    Delta(Seq<char>),
    Done,
}

impl View for StreamEvent {
    type V = StreamEventView;

    open spec fn view(&self) -> StreamEventView {
        match self {
            StreamEvent::Delta(d) => StreamEventView::Delta(d@),
            StreamEvent::Done => StreamEventView::Done,
        }
    }
}

/// The views of a sequence of events.
pub open spec fn event_views(s: Seq<StreamEvent>) -> Seq<StreamEventView> {
    s.map_values(|e: StreamEvent| e@)
}

/// The prefix of a server-sent-events data line.
pub open spec fn data_prefix() -> Seq<char> {
    seq!['d', 'a', 't', 'a', ':', ' ']
}

/// What follows the data prefix of `line`, if it starts with one.
pub open spec fn after_data_prefix(line: Seq<char>) -> Option<Seq<char>> {
    if line.len() >= 6 && line.take(6) == data_prefix() {
        Some(line.skip(6))
    } else {
        None
    }
}

/// What follows the data prefix of the characters `cs`, if they start with one.
pub fn strip_data_prefix(cs: &Vec<char>) -> (r: Option<String>)
    ensures
        match after_data_prefix(cs@) {
            Some(d) => r matches Some(s) && s@ == d,
            None => r is None,
        },
{
    if cs.len() >= 6 && cs[0] == 'd' && cs[1] == 'a' && cs[2] == 't' && cs[3] == 'a' && cs[4]
        == ':' && cs[5] == ' ' {
        assert(cs@.take(6) =~= data_prefix());
        let d = string_of(cs, 6, cs.len());
        assert(cs@.subrange(6, cs@.len() as int) =~= cs@.skip(6));
        Some(d)
    } else {
        proof {
            if cs@.len() >= 6 && cs@.take(6) == data_prefix() {
                assert(cs@.take(6)[0] == 'd' && cs@.take(6)[1] == 'a' && cs@.take(6)[2] == 't'
                    && cs@.take(6)[3] == 'a' && cs@.take(6)[4] == ':' && cs@.take(6)[5] == ' ');
            }
        }
        None
    }
}

/// The event that one line of the upstream stream announces, if any: its
/// trimmed text must be a data line; `[DONE]` ends the reply, and a JSON
/// object with a string at `/choices/0/delta/content` carries a piece of it.
pub open spec fn line_event(line: Seq<char>) -> Option<StreamEventView> {
    match after_data_prefix(trim(line)) {
        None => None,
        Some(data) => if data == "[DONE]"@ {
            Some(StreamEventView::Done)
        } else {
            match json_string_at(data, "/choices/0/delta/content"@) {
                Some(c) => Some(StreamEventView::Delta(c)),
                None => None,
            }
        },
    }
}

/// The event of the first line that announces one; the end of the reply when none does.
pub open spec fn first_event(ls: Seq<Seq<char>>) -> StreamEventView
    decreases ls.len(),
{
    if ls.len() == 0 {
        StreamEventView::Done
    } else {
        match line_event(ls[0]) {
            Some(e) => e,
            None => first_event(ls.drop_first()),
        }
    }
}

/// What one line announces, by the text of the line once trimmed: nothing
/// unless it starts with `data: `; the end of the reply when the rest is
/// `[DONE]`; otherwise a piece of the reply for every string found at
/// `/choices/0/delta/content` of the rest, the empty string included; and
/// nothing when no string is found there.
pub proof fn law_line_events(line: Seq<char>)
    ensures
        ({
            let t = trim(line);
            let prefixed = t.len() >= 6 && t.take(6) == seq!['d', 'a', 't', 'a', ':', ' '];
            &&& !prefixed ==> line_event(line) is None
            &&& prefixed && t.skip(6) == "[DONE]"@ ==> line_event(line) == Some(StreamEventView::Done)
            &&& prefixed && t.skip(6) != "[DONE]"@ ==> match json_string_at(
                t.skip(6),
                "/choices/0/delta/content"@,
            ) {
                Some(c) => line_event(line) == Some(StreamEventView::Delta(c)),
                None => line_event(line) is None,
            }
        }),
{
}

/// The event of a chunk's lines is the event of the first line that
/// announces one, whichever line that is.
pub proof fn law_first_announcing_line(ls: Seq<Seq<char>>, i: int)
    requires
        0 <= i < ls.len(),
        forall|k: int| 0 <= k < i ==> line_event(#[trigger] ls[k]) is None,
        line_event(ls[i]) is Some,
    ensures
        first_event(ls) == line_event(ls[i])->0,
    decreases i,
{
    if i > 0 {
        assert(line_event(ls[0]) is None);
        let rest = ls.drop_first();
        assert forall|k: int| 0 <= k < i - 1 implies line_event(#[trigger] rest[k]) is None by {
            assert(rest[k] == ls[k + 1]);
        }
        assert(rest[i - 1] == ls[i]);
        law_first_announcing_line(rest, i - 1);
    }
}

/// When no line announces anything, the chunk ends the reply.
pub proof fn law_silent_lines_end_the_reply(ls: Seq<Seq<char>>)
    requires
        forall|k: int| 0 <= k < ls.len() ==> line_event(#[trigger] ls[k]) is None,
    ensures
        first_event(ls) == StreamEventView::Done,
    decreases ls.len(),
{
    if ls.len() > 0 {
        assert(line_event(ls[0]) is None);
        let rest = ls.drop_first();
        assert forall|k: int| 0 <= k < rest.len() implies line_event(#[trigger] rest[k]) is None by {
            assert(rest[k] == ls[k + 1]);
        }
        law_silent_lines_end_the_reply(rest);
    }
}

/// A chunk ends the reply only when its first announcing line is a
/// `data: [DONE]` line, or when no line announces anything.
pub proof fn law_done_only_from_done_line(ls: Seq<Seq<char>>)
    ensures
        first_event(ls) == StreamEventView::Done ==> (forall|k: int|
            0 <= k < ls.len() ==> line_event(#[trigger] ls[k]) is None) || exists|i: int|
            0 <= i < ls.len() && (forall|k: int| 0 <= k < i ==> line_event(#[trigger] ls[k]) is None)
                && #[trigger] trim(ls[i]) == "data: "@ + "[DONE]"@,
    decreases ls.len(),
{
    if ls.len() > 0 {
        let rest = ls.drop_first();
        law_done_only_from_done_line(rest);
        let t = trim(ls[0]);
        law_line_events(ls[0]);
        if first_event(ls) == StreamEventView::Done {
            if line_event(ls[0]) is Some {
                assert(t.len() >= 6 && t.take(6) == seq!['d', 'a', 't', 'a', ':', ' ']);
                assert(t.skip(6) == "[DONE]"@);
                assert(t =~= t.take(6) + t.skip(6));
                assert(seq!['d', 'a', 't', 'a', ':', ' '] =~= "data: "@) by {
                    reveal_strlit("data: ");
                }
                assert(trim(ls[0]) == "data: "@ + "[DONE]"@);
            } else if forall|k: int| 0 <= k < rest.len() ==> line_event(#[trigger] rest[k]) is None {
                assert forall|k: int| 0 <= k < ls.len() implies line_event(#[trigger] ls[k]) is None by {
                    if k > 0 {
                        assert(ls[k] == rest[k - 1]);
                    }
                }
            } else {
                let i = choose|i: int|
                    0 <= i < rest.len() && (forall|k: int|
                        0 <= k < i ==> line_event(#[trigger] rest[k]) is None) && #[trigger] trim(
                        rest[i],
                    ) == "data: "@ + "[DONE]"@;
                assert(ls[i + 1] == rest[i]);
                assert forall|k: int| 0 <= k < i + 1 implies line_event(#[trigger] ls[k]) is None by {
                    if k > 0 {
                        assert(ls[k] == rest[k - 1]);
                    }
                }
            }
        }
    }
}

/// The text of a chunk of bytes, as `String::from_utf8_lossy` decodes it
/// (invalid sequences become U+FFFD).
pub uninterp spec fn utf8_lossy(bytes: Seq<u8>) -> Seq<char>;

/// `String::from_utf8_lossy`: the decoded text, named by `utf8_lossy`; on
/// valid UTF-8 it is the text that the bytes encode, as std documents.
#[verifier::external_body]
fn decode_lossy(bytes: &[u8]) -> (s: String)
    ensures
        s@ == utf8_lossy(bytes@),
        valid_utf8(bytes@) ==> s@ == decode_utf8(bytes@),
{
    String::from_utf8_lossy(bytes).into_owned()
}

/// The event that one chunk of the upstream byte stream carries: that of the
/// first of its lines that announces one (see [`line_event`]), or the end of
/// the reply when no line does.
pub fn parse_upstream_chunk(chunk: &[u8]) -> (e: StreamEvent)
    ensures
        e@ == first_event(lines(utf8_lossy(chunk@))),
        valid_utf8(chunk@) ==> e@ == first_event(lines(decode_utf8(chunk@))),
{
    let text = decode_lossy(chunk);
    let cs = chars_of(text.as_str());
    let ls = lines_of(&cs);
    let ghost all = lines(cs@);
    assert(all.skip(0) =~= all);
    let mut i: usize = 0;
    while i < ls.len()
        invariant
            i <= ls.len(),
            string_views(ls@) == all,
            all == lines(utf8_lossy(chunk@)),
            valid_utf8(chunk@) ==> utf8_lossy(chunk@) == decode_utf8(chunk@),
            first_event(all) == first_event(all.skip(i as int)),
        decreases ls.len() - i,
    {
        proof {
            assert(all.skip(i as int).drop_first() =~= all.skip(i + 1));
            assert(all.skip(i as int)[0] == ls@[i as int]@);
        }
        let line = chars_of(ls[i].as_str());
        let t = trimmed(&line);
        let tc = chars_of(t.as_str());
        let ghost here = all.skip(i as int);
        assert(tc@ == trim(here[0]));
        if let Some(data) = strip_data_prefix(&tc) {
            if data.as_str().eq("[DONE]") {
                assert(line_event(here[0]) == Some(StreamEventView::Done));
                return StreamEvent::Done;
            }
            if let Some(c) = json_str_at(data.as_str(), "/choices/0/delta/content") {
                assert(line_event(here[0]) == Some(StreamEventView::Delta(c@)));
                return StreamEvent::Delta(c);
            }
            assert(line_event(here[0]) is None);
        } else {
            assert(line_event(here[0]) is None);
        }
        i = i + 1;
    }
    assert(all.skip(i as int).len() == 0);
    StreamEvent::Done
}

/// A client that streams scripted replies, for tests.
pub struct FakeOpenRouterClient {
    pub responses: Vec<String>,
}

/// The events the scripted client streams: one piece per scripted response, then the end.
pub open spec fn scripted_events(responses: Seq<String>) -> Seq<StreamEventView> {
    Seq::new(responses.len(), |i: int| StreamEventView::Delta(responses[i]@)).push(
        StreamEventView::Done,
    )
}

impl FakeOpenRouterClient {
    /// The stream of events for a request: each scripted response as a piece
    /// of the reply, in order, then the end. The model and the messages are
    /// not looked at, and the request never fails.
    pub fn stream_chat(&self, model: &str, messages: Vec<ChatMessage>) -> (r: Result<
        Vec<StreamEvent>,
        AppError,
    >)
        ensures
            r matches Ok(events) && event_views(events@) == scripted_events(self.responses@),
    {
        let mut events: Vec<StreamEvent> = Vec::new();
        let mut i: usize = 0;
        while i < self.responses.len()
            invariant
                i <= self.responses.len(),
                event_views(events@) == Seq::new(
                    i as nat,
                    |k: int| StreamEventView::Delta(self.responses@[k]@),
                ),
            decreases self.responses.len() - i,
        {
            let ghost before = events@;
            let d = self.responses[i].clone();
            events.push(StreamEvent::Delta(d));
            proof {
                assert(events@ == before.push(StreamEvent::Delta(d)));
                assert(event_views(events@) =~= event_views(before).push(StreamEventView::Delta(d@)));
                assert(event_views(events@) =~= Seq::new(
                    (i + 1) as nat,
                    |k: int| StreamEventView::Delta(self.responses@[k]@),
                ));
            }
            i = i + 1;
        }
        let ghost before = events@;
        events.push(StreamEvent::Done);
        assert(event_views(events@) =~= event_views(before).push(StreamEventView::Done));
        assert(event_views(events@) =~= scripted_events(self.responses@));
        Ok(events)
    }
}

} // verus!
