//! The gateway before a tool server that sends its messages as server-sent
//! events and takes requests at an address of its own.
use vstd::hash_map::StringHashMap;
use vstd::prelude::*;
use vstd::utf8::{decode_utf8, valid_utf8};

use super::evaluation::{
    make_record_at, plausible, policy_of, record_of_call, Call, Reading,
};
use super::stdio::{opt_message, scrub, scrubbed_line};
use super::upstream::{
    ended, expand_headers, expanded_headers, header_views, outcome_of, Gateway, Handling,
    ProxyError, RequestAction, RequestStep,
};
use crate::clock::{id_shape, present, random_id, Timestamp};
use crate::config::ServerEntry;
use crate::document::json_text;
use crate::json::Json;
use crate::policy::engine::Policy;
use crate::protocol::jsonrpc::{opt_doc, JsonRpcMessage, Message, Request, Response};
use crate::storage::sqlite::{InvocationRecord, InvocationStatus, Record};
use crate::text::{
    after_prefix, before_suffix, begins_with, chars_of, copy_opt, ends_in, joined, opt_text,
    text_between, text_of_bytes, trim_trailing, without_trailing,
};

verus! {

/// An event, as far as it has come in.
#[derive(Debug)]
pub struct ParsedSseEvent {
    pub event_type: Option<String>,
    pub data: Option<String>,
    pub id: Option<String>,
}

/// What an event says.
#[verifier::ext_equal]
pub struct SseEvent {
    pub event_type: Option<Seq<char>>,
    pub data: Option<Seq<char>>,
    pub id: Option<Seq<char>>,
}

impl View for ParsedSseEvent {
    type V = SseEvent;

    open spec fn view(&self) -> SseEvent {
        SseEvent {
            event_type: opt_text(self.event_type),
            data: opt_text(self.data),
            id: opt_text(self.id),
        }
    }
}

/// An event of which nothing has come in.
pub open spec fn no_event() -> SseEvent {
    SseEvent { event_type: None, data: None, id: None }
}

impl Default for ParsedSseEvent {
    fn default() -> (e: ParsedSseEvent)
        ensures
            e@ == no_event(),
    {
        ParsedSseEvent { event_type: None, data: None, id: None }
    }
}

impl Clone for ParsedSseEvent {
    fn clone(&self) -> (e: ParsedSseEvent)
        ensures
            e@ == self@,
    {
        ParsedSseEvent {
            event_type: copy_opt(&self.event_type),
            data: copy_opt(&self.data),
            id: copy_opt(&self.id),
        }
    }
}

/// The event after a line, and the event that the line completes, if it does. An
/// empty line completes an event that has data or a type. A field that comes
/// again replaces what it was; a line that is no field is passed over.
pub open spec fn after_line(current: SseEvent, line: Seq<char>) -> (SseEvent, Option<SseEvent>) {
    if line.len() == 0 {
        if current.data is Some || current.event_type is Some {
            (no_event(), Some(current))
        } else {
            (current, None)
        }
    } else if begins_with(line, "data: "@) {
        (SseEvent { data: Some(line.skip("data: "@.len() as int)), ..current }, None)
    } else if begins_with(line, "event: "@) {
        (SseEvent { event_type: Some(line.skip("event: "@.len() as int)), ..current }, None)
    } else if begins_with(line, "id: "@) {
        (SseEvent { id: Some(line.skip("id: "@.len() as int)), ..current }, None)
    } else {
        (current, None)
    }
}

/// Where the next line feed stands, or the end of the text.
pub open spec fn line_feed_at(s: Seq<char>, i: int) -> int
    decreases s.len() - i,
{
    if i < 0 || i >= s.len() || s[i] == '\n' {
        i
    } else {
        line_feed_at(s, i + 1)
    }
}

/// A stream of events: the start of a line that has not ended, and the event as
/// far as it has come in.
#[verifier::ext_equal]
pub struct Stream {
    pub rest: Seq<char>,
    pub current: SseEvent,
}

/// The stream after the lines in it were read, and the events that they complete.
/// Carriage returns at the end of a line are no part of it.
pub open spec fn drained(s: Stream) -> (Stream, Seq<SseEvent>)
    decreases s.rest.len(),
{
    let end = line_feed_at(s.rest, 0);
    if 0 <= end < s.rest.len() {
        let line = without_trailing(s.rest.take(end), '\r');
        let (current, complete) = after_line(s.current, line);
        let (stream, events) = drained(Stream { rest: s.rest.skip(end + 1), current });
        (
            stream,
            (match complete {
                Some(e) => seq![e],
                None => Seq::empty(),
            }) + events,
        )
    } else {
        (s, Seq::empty())
    }
}

impl Stream {
    /// The stream after more text came, and the events that it completes.
    pub open spec fn fed(self, text: Seq<char>) -> (Stream, Seq<SseEvent>) {
        drained(Stream { rest: self.rest + text, ..self })
    }
}

/// What events say.
pub open spec fn event_views(events: Seq<ParsedSseEvent>) -> Seq<SseEvent> {
    Seq::new(events.len(), |i: int| events[i]@)
}

/// Reads events from a stream that comes in pieces.
#[derive(Debug)]
pub struct SseDecoder {
    rest: String,
    current: ParsedSseEvent,
}

impl View for SseDecoder {
    type V = Stream;

    closed spec fn view(&self) -> Stream {
        Stream { rest: self.rest@, current: self.current@ }
    }
}

impl SseDecoder {
    /// A stream of which nothing has come in.
    pub fn new() -> (d: SseDecoder)
        ensures
            d@ == (Stream { rest: Seq::empty(), current: no_event() }),
    {
        let d = SseDecoder { rest: String::new(), current: ParsedSseEvent::default() };
        assert(d@.rest =~= Seq::empty());
        d
    }

    /// Takes a line, and gives the event that it completes, if it does.
    fn take_line(&mut self, line: &str) -> (complete: Option<ParsedSseEvent>)
        ensures
            final(self)@.rest == old(self)@.rest,
            ({
                let (current, done) = after_line(old(self)@.current, line@);
                &&& final(self)@.current == current
                &&& match complete {
                    Some(e) => done == Some(e@),
                    None => done is None,
                }
            }),
    {
        proof {
            reveal_strlit("data: ");
            reveal_strlit("event: ");
            reveal_strlit("id: ");
        }
        if line.is_empty() {
            if self.current.data.is_some() || self.current.event_type.is_some() {
                let complete = self.current.clone();
                self.current = ParsedSseEvent::default();
                return Some(complete);
            }
        } else if let Some(data) = after_prefix(line, "data: ") {
            self.current.data = Some(data);
        } else if let Some(event_type) = after_prefix(line, "event: ") {
            self.current.event_type = Some(event_type);
        } else if let Some(id) = after_prefix(line, "id: ") {
            self.current.id = Some(id);
        }
        None
    }

    /// Takes more of the stream, and gives the events that it completes.
    pub fn feed(&mut self, text: &str) -> (events: Vec<ParsedSseEvent>)
        ensures
            old(self)@.fed(text@) == (final(self)@, event_views(events@)),
    {
        let all = joined(self.rest.as_str(), text);
        let chars = chars_of(all.as_str());
        let len = chars.len();
        let ghost start = Stream { rest: all@, current: self@.current };
        let mut events: Vec<ParsedSseEvent> = Vec::new();
        let mut from: usize = 0;
        let mut i: usize = 0;
        assert(all@.skip(0) =~= all@);
        assert(event_views(events@) + drained(start).1 =~= drained(start).1);
        while i < len
            invariant
                from <= i <= len,
                len == chars@.len(),
                chars@ == all@,
                start.rest == all@,
                start.current == old(self)@.current,
                self@.rest == old(self)@.rest,
                line_feed_at(all@.skip(from as int), 0) == line_feed_at(
                    all@.skip(from as int),
                    i - from,
                ),
                ({
                    let here = drained(
                        Stream { rest: all@.skip(from as int), current: self@.current },
                    );
                    &&& drained(start).0 == here.0
                    &&& drained(start).1 == event_views(events@) + here.1
                }),
            decreases len - i,
        {
            if chars[i] == '\n' {
                let ghost before = self@.current;
                let ghost done = events@;
                let line = trim_trailing(text_between(&chars, from, i).as_str(), '\r');
                let ghost tail = all@.skip(from as int);
                proof {
                    assert(line_feed_at(tail, 0) == i - from);
                    assert(tail.take(i - from) =~= all@.subrange(from as int, i as int));
                    assert(tail.skip(i - from + 1) =~= all@.skip(i + 1));
                }
                let complete = self.take_line(line.as_str());
                let ghost later = drained(Stream { rest: all@.skip(i + 1), current: self@.current });
                match complete {
                    Some(e) => {
                        events.push(e);
                        assert(event_views(events@) =~= event_views(done).push(e@));
                        assert(event_views(events@) + later.1 =~= event_views(done) + (seq![e@]
                            + later.1));
                    },
                    None => {
                        assert(Seq::<SseEvent>::empty() + later.1 =~= later.1);
                    },
                }
                i += 1;
                from = i;
            } else {
                i += 1;
            }
        }
        let rest = text_between(&chars, from, len);
        proof {
            assert(rest@ =~= all@.skip(from as int));
            assert(event_views(events@) + Seq::<SseEvent>::empty() =~= event_views(events@));
        }
        self.rest = rest;
        events
    }

    /// Takes more of the stream as bytes; they have to be text by themselves.
    pub fn feed_bytes(&mut self, bytes: &[u8]) -> (events: Result<Vec<ParsedSseEvent>, ProxyError>)
        ensures
            match events {
                Ok(events) => valid_utf8(bytes@) && old(self)@.fed(decode_utf8(bytes@)) == (
                    final(self)@,
                    event_views(events@),
                ),
                Err(e) => e == ProxyError::NotText && !valid_utf8(bytes@) && final(self)@ == old(
                    self,
                )@,
            },
    {
        match text_of_bytes(bytes) {
            Some(text) => Ok(self.feed(text.as_str())),
            None => Err(ProxyError::NotText),
        }
    }
}

/// The first line feed of a text stays the first when more text follows.
proof fn lemma_line_feed_stays(a: Seq<char>, b: Seq<char>, i: int)
    requires
        0 <= i <= a.len(),
        line_feed_at(a, i) < a.len(),
    ensures
        line_feed_at(a + b, i) == line_feed_at(a, i),
        i <= line_feed_at(a, i),
    decreases a.len() - i,
{
    if i < a.len() && a[i] != '\n' {
        lemma_line_feed_stays(a, b, i + 1);
    }
}

/// How a stream is cut into pieces makes no difference: two pieces, one after the
/// other, leave the stream as both at once do, and complete the same events.
pub proof fn law_pieces_make_no_difference(s: Stream, a: Seq<char>, b: Seq<char>)
    ensures
        ({
            let (mid, first) = s.fed(a);
            let (end, second) = mid.fed(b);
            s.fed(a + b) == (end, first + second)
        }),
{
    assert(s.rest + (a + b) =~= (s.rest + a) + b);
    lemma_drained_in_pieces(Stream { rest: s.rest + a, ..s }, b);
}

proof fn lemma_drained_in_pieces(s: Stream, b: Seq<char>)
    ensures
        ({
            let (mid, first) = drained(s);
            let (end, second) = mid.fed(b);
            drained(Stream { rest: s.rest + b, ..s }) == (end, first + second)
        }),
    decreases s.rest.len(),
{
    let end = line_feed_at(s.rest, 0);
    let (mid, first) = drained(s);
    if 0 <= end < s.rest.len() {
        lemma_line_feed_stays(s.rest, b, 0);
        let joint = s.rest + b;
        assert(joint.take(end) =~= s.rest.take(end));
        assert(joint.skip(end + 1) =~= s.rest.skip(end + 1) + b);
        let line = without_trailing(s.rest.take(end), '\r');
        let (current, complete) = after_line(s.current, line);
        let next = Stream { rest: s.rest.skip(end + 1), current };
        lemma_drained_in_pieces(next, b);
        let head = match complete {
            Some(e) => seq![e],
            None => Seq::empty(),
        };
        let later = drained(next).1;
        let second = mid.fed(b).1;
        assert(head + (later + second) =~= (head + later) + second);
    } else {
        assert(first + mid.fed(b).1 =~= mid.fed(b).1);
    }
}

/// Where the last slash stands, or nowhere.
pub open spec fn last_slash(s: Seq<char>) -> int
    decreases s.len(),
{
    if s.len() == 0 || s.last() == '/' {
        s.len() - 1
    } else {
        last_slash(s.drop_last())
    }
}

/// What comes before the last slash of an address; all of one without a slash.
pub open spec fn base_of(url: Seq<char>) -> Seq<char> {
    if last_slash(url) >= 0 {
        url.take(last_slash(url))
    } else {
        url
    }
}

/// The last slash stands in the text, or nowhere.
pub proof fn lemma_last_slash(s: Seq<char>)
    ensures
        -1 <= last_slash(s) < s.len(),
    decreases s.len(),
{
    if s.len() > 0 && s.last() != '/' {
        lemma_last_slash(s.drop_last());
    }
}

/// What comes before the last slash of an address.
pub fn base_url(url: &str) -> (base: String)
    ensures
        base@ == base_of(url@),
{
    let chars = chars_of(url);
    let mut end: usize = chars.len();
    assert(url@.take(end as int) =~= url@);
    while end > 0 && chars[end - 1] != '/'
        invariant
            end <= chars@.len(),
            chars@ == url@,
            last_slash(url@) == last_slash(url@.take(end as int)),
        decreases end,
    {
        assert(url@.take(end as int).drop_last() =~= url@.take(end - 1));
        end -= 1;
    }
    proof {
        lemma_last_slash(url@);
        assert(url@.take(end as int).len() == end);
    }
    if end > 0 {
        text_between(&chars, 0, end - 1)
    } else {
        url.to_owned()
    }
}

/// Where requests go until the tool server says otherwise: beside the address of
/// its events.
pub open spec fn first_endpoint(sse_url: Seq<char>) -> Seq<char> {
    if ends_in(sse_url, "/sse"@) {
        sse_url.take(sse_url.len() - "/sse"@.len()) + "/message"@
    } else {
        sse_url + "/message"@
    }
}

/// Where requests go until the tool server says otherwise.
pub fn derive_message_endpoint(sse_url: &str) -> (url: String)
    ensures
        url@ == first_endpoint(sse_url@),
{
    match before_suffix(sse_url, "/sse") {
        Some(base) => joined(base.as_str(), "/message"),
        None => joined(sse_url, "/message"),
    }
}

/// Where requests go from now on, if an event says so: an event of the type
/// `endpoint` gives the path.
pub open spec fn endpoint_said(e: SseEvent, sse_url: Seq<char>) -> Option<Seq<char>> {
    if e.event_type == Some("endpoint"@) {
        match e.data {
            Some(path) => Some(base_of(sse_url) + path),
            None => None,
        }
    } else {
        None
    }
}

/// Where requests go from now on, if an event says so.
pub fn endpoint_in(event: &ParsedSseEvent, sse_url: &str) -> (url: Option<String>)
    ensures
        opt_text(url) == endpoint_said(event@, sse_url@),
{
    match (&event.event_type, &event.data) {
        (Some(event_type), Some(path)) => if *event_type.as_str() == *"endpoint" {
            Some(joined(base_url(sse_url).as_str(), path.as_str()))
        } else {
            None
        },
        _ => None,
    }
}

/// The calls whose responses are still to come as events, by the text of their
/// ids.
pub struct AwaitedCalls {
    keys: StringHashMap<bool>,
}

impl View for AwaitedCalls {
    type V = Set<Seq<char>>;

    closed spec fn view(&self) -> Set<Seq<char>> {
        self.keys@.dom()
    }
}

impl AwaitedCalls {
    /// No calls.
    pub fn new() -> (c: AwaitedCalls)
        ensures
            c@ == Set::<Seq<char>>::empty(),
    {
        let c = AwaitedCalls { keys: StringHashMap::new() };
        assert(c@ =~= Set::empty());
        c
    }

    /// Waits for the response to a call.
    fn insert(&mut self, key: String)
        ensures
            final(self)@ == old(self)@.insert(key@),
    {
        self.keys.insert(key, true);
        assert(self@ =~= old(self)@.insert(key@));
    }

    /// Waits for it no more, and says whether it was waited for.
    fn take(&mut self, key: &str) -> (awaited: bool)
        ensures
            awaited == old(self)@.contains(key@),
            final(self)@ == old(self)@.remove(key@),
    {
        let awaited = self.keys.get(key).is_some();
        self.keys.remove(key);
        assert(self@ =~= old(self)@.remove(key@));
        awaited
    }
}

/// The calls that are waited for after a request was handled so: one that calls a
/// tool under an id, and goes on, is waited for.
pub open spec fn awaiting(
    calls: Set<Seq<char>>,
    message: Option<Message>,
    action: Handling,
) -> Set<Seq<char>> {
    match (message, action) {
        (Some(Message::Request(r)), Handling::Call { .. }) => if r.id is Some {
            calls.insert(json_text(r.id->0))
        } else {
            calls
        },
        _ => calls,
    }
}

/// The gateway before a tool server that sends events.
pub struct SseProxy {
    pub upstream_sse_url: String,
    /// Where requests go.
    pub message_endpoint: String,
    pub extra_headers: Vec<(String, String)>,
    pub bind_port: u16,
    pub gateway: Gateway,
    pub awaited: AwaitedCalls,
}

/// What an event comes to, for an agent that waits for these calls: the response to
/// one of them comes without what the redacting rules strike out and ends the wait,
/// and anything else as it came.
pub open spec fn delivered(
    policy: Option<Policy>,
    calls: Set<Seq<char>>,
    event: SseEvent,
    message: Option<Message>,
) -> (SseEvent, Set<Seq<char>>) {
    match (event.data, message) {
        (Some(data), Some(Message::Response(r))) => if calls.contains(json_text(r.id)) {
            (
                SseEvent { data: Some(scrubbed_line(policy, r, data)), ..event },
                calls.remove(json_text(r.id)),
            )
        } else {
            (event, calls)
        },
        _ => (event, calls),
    }
}

impl SseProxy {
    /// The gateway before the tool server of an entry, whose headers may name
    /// variables.
    pub fn new(
        entry: &ServerEntry,
        vars: &Vec<(String, String)>,
        gateway: Gateway,
    ) -> (p: Result<SseProxy, ProxyError>)
        ensures
            match p {
                Ok(p) => {
                    &&& entry.url is Some
                    &&& p.upstream_sse_url@ == entry.url->0@
                    &&& p.message_endpoint@ == first_endpoint(entry.url->0@)
                    &&& header_views(p.extra_headers@) == expanded_headers(entry.headers@, vars@)
                    &&& p.bind_port == (match entry.bind_port {
                        Some(n) => n,
                        None => 7072,
                    })
                    &&& p.gateway == gateway
                    &&& p.awaited@ == Set::<Seq<char>>::empty()
                },
                Err(e) => entry.url is None && e == ProxyError::MissingUrl,
            },
    {
        let url = match &entry.url {
            Some(url) => url.clone(),
            None => {
                return Err(ProxyError::MissingUrl);
            },
        };
        Ok(
            SseProxy {
                message_endpoint: derive_message_endpoint(url.as_str()),
                upstream_sse_url: url,
                extra_headers: expand_headers(&entry.headers, vars),
                bind_port: match entry.bind_port {
                    Some(n) => n,
                    None => 7072,
                },
                gateway,
                awaited: AwaitedCalls::new(),
            },
        )
    }

    /// Takes note of an event: where it says where requests go, they go there from
    /// now on.
    pub fn take_event(&mut self, event: &ParsedSseEvent)
        ensures
            final(self).upstream_sse_url == old(self).upstream_sse_url,
            final(self).extra_headers == old(self).extra_headers,
            final(self).bind_port == old(self).bind_port,
            final(self).gateway == old(self).gateway,
            final(self).awaited == old(self).awaited,
            final(self).message_endpoint@ == (match endpoint_said(
                event@,
                old(self).upstream_sse_url@,
            ) {
                Some(url) => url,
                None => old(self).message_endpoint@,
            }),
    {
        if let Some(url) = endpoint_in(event, self.upstream_sse_url.as_str()) {
            self.message_endpoint = url;
        }
    }

    /// What neither a request nor an event changes.
    pub open spec fn same_server(self, other: SseProxy) -> bool {
        &&& self.upstream_sse_url == other.upstream_sse_url
        &&& self.message_endpoint == other.message_endpoint
        &&& self.extra_headers == other.extra_headers
        &&& self.bind_port == other.bind_port
    }

    /// Handles a request from the agent, now. `message` is the message that its
    /// body holds, if it holds one.
    pub fn request(&mut self, message: &Option<JsonRpcMessage>) -> (step: RequestStep)
        ensures
            final(self).same_server(*old(self)),
            final(self).gateway.clocks() == old(self).gateway.clocks(),
            exists|at: Reading|
                plausible(at, old(self).gateway.clocks().0)
                    && #[trigger] old(self).gateway@.after_request(opt_message(*message), at) == (
                    step@,
                    final(self).gateway@,
                ),
            final(self).awaited@ == awaiting(
                old(self).awaited@,
                opt_message(*message),
                step@.action,
            ),
    {
        let step = self.gateway.request(message);
        if let (Some(JsonRpcMessage::Request(req)), RequestAction::Call { .. }) = (
            message,
            &step.action,
        ) {
            if let Some(id) = &req.id {
                self.awaited.insert(id.to_text());
            }
        }
        step
    }

    /// An event as the agent gets it: the response to a call comes without what the
    /// redacting rules strike out. `message` is the message that the data of the
    /// event hold, if they hold one.
    pub fn deliver(&mut self, event: ParsedSseEvent, message: &Option<JsonRpcMessage>) -> (out:
        ParsedSseEvent)
        ensures
            final(self).same_server(*old(self)),
            final(self).gateway == old(self).gateway,
            delivered(
                policy_of(old(self).gateway.policy),
                old(self).awaited@,
                event@,
                opt_message(*message),
            ) == (out@, final(self).awaited@),
    {
        if let (Some(data), Some(JsonRpcMessage::Response(resp))) = (&event.data, message) {
            if self.awaited.take(resp.id.to_text().as_str()) {
                let data = Some(scrub(&self.gateway.policy, resp, data.as_str()).1);
                return ParsedSseEvent { data, ..event };
            }
            assert(self.awaited@ =~= old(self).awaited@);
        }
        event
    }

    /// The record of a call that the tool server answered with this status, now.
    pub fn finished(&self, tool_name: &str, arguments: Option<Json>, status: u16) -> (r:
        InvocationRecord)
        ensures
            id_shape(r@.id),
            present(r@.timestamp),
            r@ == record_of_call(
                r@.id,
                r@.timestamp,
                Call {
                    id: None,
                    tool: tool_name@,
                    arguments: opt_doc(arguments),
                    server: self.gateway.server_name@,
                },
                ended(status),
                None,
            ),
    {
        make_record_at(
            random_id(),
            Timestamp::now(),
            tool_name,
            arguments,
            self.gateway.server_name.as_str(),
            outcome_of(status),
            None,
        )
    }
}

/// The record of a call that ended now, after so many nanoseconds, with or
/// without a result.
pub fn make_invocation_record(
    tool_name: &str,
    server_name: &str,
    nanos: u128,
    result: Option<Json>,
    is_error: bool,
) -> (r: InvocationRecord)
    ensures
        id_shape(r@.id),
        present(r@.timestamp),
        r@ == (Record {
            id: r@.id,
            timestamp: r@.timestamp,
            agent_id: None,
            session_id: None,
            server_name: server_name@,
            tool_name: tool_name@,
            arguments: None,
            result: opt_doc(result),
            latency_ms: Some((nanos / 1_000_000) as i64),
            status: if is_error {
                InvocationStatus::Error
            } else {
                InvocationStatus::Allowed
            },
            policy_hit: None,
        }),
{
    InvocationRecord {
        id: random_id(),
        timestamp: Timestamp::now(),
        agent_id: None,
        session_id: None,
        server_name: server_name.to_owned(),
        tool_name: tool_name.to_owned(),
        arguments: None,
        result,
        latency_ms: Some((nanos / 1_000_000) as i64),
        status: if is_error {
            InvocationStatus::Error
        } else {
            InvocationStatus::Allowed
        },
        policy_hit: None,
    }
}

/// The response to a call that went on comes back without what the redacting rules
/// strike out; one to any other request, under another id, comes as it came.
pub proof fn law_only_answers_to_calls_are_scrubbed(
    policy: Policy,
    calls: Set<Seq<char>>,
    call: Request,
    action: Handling,
    event: SseEvent,
    r: Response,
)
    requires
        action is Call,
        call.id is Some,
        event.data is Some,
    ensures
        ({
            let after = awaiting(calls, Some(Message::Request(call)), action);
            let got = delivered(Some(policy), after, event, Some(Message::Response(r)));
            &&& json_text(r.id) == json_text(call.id->0) ==> got.0.data == Some(
                scrubbed_line(Some(policy), r, event.data->0),
            ) && !got.1.contains(json_text(r.id))
            &&& json_text(r.id) != json_text(call.id->0) && !calls.contains(json_text(r.id))
                ==> got == (event, after)
        }),
{
}

} // verus!
