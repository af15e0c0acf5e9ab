//! How events and addresses are written, told by their texts.
use vstd::prelude::*;

use super::evaluation::{scope_name, LimitScope};
use super::http::going_on;
use super::sse::{
    after_line, base_of, drained, endpoint_said, first_endpoint, last_slash, line_feed_at, no_event,
    SseEvent, Stream,
};
use super::upstream::local_address;
use crate::text::{begins_with, decimal, ends_in, lowercased, without_trailing};

verus! {

proof fn lemma_line_feed(s: Seq<char>, i: int, end: int)
    requires
        0 <= i <= end < s.len(),
        s[end] == '\n',
        forall|k: int| i <= k < end ==> #[trigger] s[k] != '\n',
    ensures
        line_feed_at(s, i) == end,
    decreases end - i,
{
    if i < end {
        lemma_line_feed(s, i + 1, end);
    }
}

/// The first line of a stream is read, and the rest after it.
proof fn lemma_first_line(current: SseEvent, line: Seq<char>, rest: Seq<char>)
    requires
        !line.contains('\n'),
    ensures
        ({
            let (next, complete) = after_line(current, without_trailing(line, '\r'));
            let (stream, events) = drained(Stream { rest, current: next });
            drained(Stream { rest: line + seq!['\n'] + rest, current }) == (
                stream,
                (match complete {
                    Some(e) => seq![e],
                    None => Seq::empty(),
                }) + events,
            )
        }),
{
    let s = line + seq!['\n'] + rest;
    let end = line.len() as int;
    assert forall|k: int| 0 <= k < end implies #[trigger] s[k] != '\n' by {
        assert(s[k] == line[k]);
        assert(line.contains(line[k]));
    }
    assert(s[end] == '\n');
    lemma_line_feed(s, 0, end);
    assert(s.take(end) =~= line);
    assert(s.skip(end + 1) =~= rest);
}

proof fn lemma_nothing_to_read(current: SseEvent)
    ensures
        drained(Stream { rest: Seq::empty(), current }) == (
            Stream { rest: Seq::empty(), current },
            Seq::<SseEvent>::empty(),
        ),
{
}

/// A text that ends in none of these characters loses none.
proof fn lemma_nothing_trails(s: Seq<char>, c: char)
    requires
        s.len() == 0 || s.last() != c,
    ensures
        without_trailing(s, c) == s,
{
}

/// A stream is read line by line: a line that has come whole fills or completes the
/// event, whether a line feed ends it or a carriage return and a line feed, and what
/// follows is read after it.
#[verifier::rlimit(40)]
pub proof fn law_streams_are_read_line_by_line(
    current: SseEvent,
    line: Seq<char>,
    rest: Seq<char>,
)
    requires
        !line.contains('\n'),
        line.len() == 0 || line.last() != '\r',
    ensures
        ({
            let (next, complete) = after_line(current, line);
            let (stream, events) = drained(Stream { rest, current: next });
            let all = (match complete {
                Some(e) => seq![e],
                None => Seq::empty(),
            }) + events;
            &&& drained(Stream { rest: line + "\n"@ + rest, current }) == (stream, all)
            &&& drained(Stream { rest: line + "\r\n"@ + rest, current }) == (stream, all)
        }),
        drained(Stream { rest: line, current }) == (
            Stream { rest: line, current },
            Seq::<SseEvent>::empty(),
        ),
{
    reveal_strlit("\n");
    reveal_strlit("\r\n");
    lemma_nothing_trails(line, '\r');
    assert(line + "\n"@ + rest =~= line + seq!['\n'] + rest);
    lemma_first_line(current, line, rest);
    let ended = line.push('\r');
    assert(!ended.contains('\n')) by {
        assert forall|i: int| 0 <= i < ended.len() implies #[trigger] ended[i] != '\n' by {
            if i < line.len() {
                assert(ended[i] == line[i]);
                assert(line.contains(line[i]));
            }
        }
    }
    assert(ended.drop_last() =~= line);
    assert(without_trailing(ended, '\r') == line);
    assert(line + "\r\n"@ + rest =~= ended + seq!['\n'] + rest);
    lemma_first_line(current, ended, rest);
    assert forall|i: int| 0 <= i < line.len() implies #[trigger] line[i] != '\n' by {
        assert(line.contains(line[i]));
    }
    lemma_no_line_feed(line, 0);
}

proof fn lemma_no_line_feed(s: Seq<char>, i: int)
    requires
        0 <= i <= s.len(),
        forall|k: int| i <= k < s.len() ==> #[trigger] s[k] != '\n',
    ensures
        line_feed_at(s, i) == s.len(),
    decreases s.len() - i,
{
    if i < s.len() {
        lemma_no_line_feed(s, i + 1);
    }
}

/// An event that a tool server writes, its type on one line, its data on the next and
/// an empty line after them, is read as that event, and nothing of it is left over.
#[verifier::rlimit(40)]
pub proof fn law_written_events_are_read(event_type: Seq<char>, data: Seq<char>)
    requires
        !event_type.contains('\n'),
        !data.contains('\n'),
        event_type.len() == 0 || event_type.last() != '\r',
        data.len() == 0 || data.last() != '\r',
    ensures
        (Stream { rest: Seq::empty(), current: no_event() }).fed(
            "event: "@ + event_type + "\ndata: "@ + data + "\n\n"@,
        ) == (
            Stream { rest: Seq::empty(), current: no_event() },
            seq![SseEvent { event_type: Some(event_type), data: Some(data), id: None }],
        ),
{
    reveal_strlit("event: ");
    reveal_strlit("data: ");
    reveal_strlit("\ndata: ");
    reveal_strlit("\n\n");
    reveal_strlit("id: ");
    let first = "event: "@ + event_type;
    let second = "data: "@ + data;
    let none = Seq::<char>::empty();
    let typed = SseEvent { event_type: Some(event_type), data: None, id: None };
    let full = SseEvent { event_type: Some(event_type), data: Some(data), id: None };
    let end = none + seq!['\n'] + none;
    let mid = second + seq!['\n'] + end;
    let all = first + seq!['\n'] + mid;
    let start = Stream { rest: Seq::empty(), current: no_event() };
    assert(start.rest + ("event: "@ + event_type + "\ndata: "@ + data + "\n\n"@) =~= all);
    assert(!first.contains('\n')) by {
        assert forall|i: int| 0 <= i < first.len() implies #[trigger] first[i] != '\n' by {
            if i >= 7 {
                assert(first[i] == event_type[i - 7]);
                assert(event_type.contains(event_type[i - 7]));
            }
        }
    }
    assert(!second.contains('\n')) by {
        assert forall|i: int| 0 <= i < second.len() implies #[trigger] second[i] != '\n' by {
            if i >= 6 {
                assert(second[i] == data[i - 6]);
                assert(data.contains(data[i - 6]));
            }
        }
    }
    lemma_nothing_trails(first, '\r');
    lemma_nothing_trails(second, '\r');
    lemma_nothing_trails(none, '\r');
    lemma_first_line(no_event(), first, mid);
    assert(first.take(7) =~= "event: "@);
    assert(first.skip(7) =~= event_type);
    assert(!begins_with(first, "data: "@)) by {
        assert(first.take(6)[0] == 'e');
        assert("data: "@[0] == 'd');
    }
    assert(after_line(no_event(), first) == (typed, None::<SseEvent>));
    lemma_first_line(typed, second, end);
    assert(second.take(6) =~= "data: "@);
    assert(second.skip(6) =~= data);
    assert(after_line(typed, second) == (full, None::<SseEvent>));
    lemma_first_line(full, none, none);
    assert(after_line(full, none) == (no_event(), Some(full)));
    lemma_nothing_to_read(no_event());
    let e = Seq::<SseEvent>::empty();
    assert(e + (e + (seq![full] + e)) =~= seq![full]);
}

/// An event of data alone is read as one without a type.
#[verifier::rlimit(40)]
pub proof fn law_written_data_are_read(data: Seq<char>)
    requires
        !data.contains('\n'),
        data.len() == 0 || data.last() != '\r',
    ensures
        (Stream { rest: Seq::empty(), current: no_event() }).fed("data: "@ + data + "\n\n"@) == (
            Stream { rest: Seq::empty(), current: no_event() },
            seq![SseEvent { event_type: None, data: Some(data), id: None }],
        ),
{
    reveal_strlit("data: ");
    reveal_strlit("\n\n");
    let line = "data: "@ + data;
    let none = Seq::<char>::empty();
    let full = SseEvent { event_type: None, data: Some(data), id: None };
    let end = none + seq!['\n'] + none;
    let all = line + seq!['\n'] + end;
    let start = Stream { rest: Seq::empty(), current: no_event() };
    assert(start.rest + ("data: "@ + data + "\n\n"@) =~= all);
    assert(!line.contains('\n')) by {
        assert forall|i: int| 0 <= i < line.len() implies #[trigger] line[i] != '\n' by {
            if i >= 6 {
                assert(line[i] == data[i - 6]);
                assert(data.contains(data[i - 6]));
            }
        }
    }
    lemma_nothing_trails(line, '\r');
    lemma_nothing_trails(none, '\r');
    lemma_first_line(no_event(), line, end);
    assert(line.take(6) =~= "data: "@);
    assert(line.skip(6) =~= data);
    assert(after_line(no_event(), line) == (full, None::<SseEvent>));
    lemma_first_line(full, none, none);
    assert(after_line(full, none) == (no_event(), Some(full)));
    lemma_nothing_to_read(no_event());
    let e = Seq::<SseEvent>::empty();
    assert(e + (seq![full] + e) =~= seq![full]);
}

/// What each line does to the event that comes in: `data`, `event` and `id` set their
/// field, an empty line completes an event that has data or a type, and a line that is
/// none of these, a comment among them, changes nothing.
#[verifier::rlimit(40)]
pub proof fn law_lines_fill_the_event(current: SseEvent, text: Seq<char>)
    ensures
        after_line(current, "data: "@ + text) == (
            SseEvent { data: Some(text), ..current },
            None::<SseEvent>,
        ),
        after_line(current, "event: "@ + text) == (
            SseEvent { event_type: Some(text), ..current },
            None::<SseEvent>,
        ),
        after_line(current, "id: "@ + text) == (
            SseEvent { id: Some(text), ..current },
            None::<SseEvent>,
        ),
        after_line(current, ":"@ + text) == (current, None::<SseEvent>),
        current.data is Some || current.event_type is Some ==> after_line(current, Seq::empty()) == (
            no_event(),
            Some(current),
        ),
        current.data is None && current.event_type is None ==> after_line(current, Seq::empty()) == (
            current,
            None::<SseEvent>,
        ),
        no_event() == (SseEvent { event_type: None, data: None, id: None }),
{
    reveal_strlit("data: ");
    reveal_strlit("event: ");
    reveal_strlit("id: ");
    reveal_strlit(":");
    let (d, e, i) = ("data: "@ + text, "event: "@ + text, "id: "@ + text);
    let comment = ":"@ + text;
    assert(d.take(6) =~= "data: "@ && d.skip(6) =~= text);
    assert(e.take(7) =~= "event: "@ && e.skip(7) =~= text);
    assert(i.take(4) =~= "id: "@ && i.skip(4) =~= text);
    assert("data: "@[0] == 'd' && "event: "@[0] == 'e' && "id: "@[0] == 'i');
    assert(!begins_with(e, "data: "@)) by {
        assert(e.take(6)[0] == 'e');
    }
    assert(!begins_with(i, "data: "@)) by {
        if i.len() >= 6 {
            assert(i.take(6)[0] == 'i');
        }
    }
    assert(!begins_with(i, "event: "@)) by {
        if i.len() >= 7 {
            assert(i.take(7)[0] == 'i');
        }
    }
    assert(comment[0] == ':');
    assert(!begins_with(comment, "data: "@)) by {
        if comment.len() >= 6 {
            assert(comment.take(6)[0] == ':');
        }
    }
    assert(!begins_with(comment, "event: "@)) by {
        if comment.len() >= 7 {
            assert(comment.take(7)[0] == ':');
        }
    }
    assert(!begins_with(comment, "id: "@)) by {
        if comment.len() >= 4 {
            assert(comment.take(4)[0] == ':');
        }
    }
}

/// Until the tool server says otherwise requests go to `message` beside an address that
/// ends in `/sse`, and to `message` below any other.
pub proof fn law_requests_go_beside_the_events(base: Seq<char>)
    ensures
        first_endpoint(base + "/sse"@) == base + "/message"@,
        !ends_in(base, "/sse"@) ==> first_endpoint(base) == base + "/message"@,
{
    reveal_strlit("/sse");
    let url = base + "/sse"@;
    assert(url.skip(url.len() - 4) =~= "/sse"@);
    assert(url.take(url.len() - 4) =~= base);
}

proof fn lemma_slash_before(base: Seq<char>, segment: Seq<char>)
    requires
        !segment.contains('/'),
    ensures
        last_slash(base + seq!['/'] + segment) == base.len(),
    decreases segment.len(),
{
    let s = base + seq!['/'] + segment;
    if segment.len() == 0 {
        assert(s.last() == '/');
    } else {
        assert(s.last() == segment.last());
        assert(segment.contains(segment.last()));
        let shorter = segment.drop_last();
        assert(s.drop_last() =~= base + seq!['/'] + shorter);
        assert(!shorter.contains('/')) by {
            assert forall|i: int| 0 <= i < shorter.len() implies #[trigger] shorter[i] != '/' by {
                assert(shorter[i] == segment[i]);
                assert(segment.contains(segment[i]));
            }
        }
        lemma_slash_before(base, shorter);
    }
}

/// An event of the type `endpoint` gives the path to which requests go from now on,
/// after what comes before the last slash of the address of the events; an event of
/// any other type, or without data, says nothing of it.
pub proof fn law_endpoint_events_give_the_path(
    base: Seq<char>,
    segment: Seq<char>,
    path: Seq<char>,
    id: Option<Seq<char>>,
    other: SseEvent,
)
    requires
        !segment.contains('/'),
        other.event_type != Some("endpoint"@) || other.data is None,
    ensures
        endpoint_said(
            SseEvent { event_type: Some("endpoint"@), data: Some(path), id },
            base + seq!['/'] + segment,
        ) == Some(base + path),
        endpoint_said(other, base + seq!['/'] + segment) is None,
        base_of(base + seq!['/'] + segment) == base,
{
    let url = base + seq!['/'] + segment;
    lemma_slash_before(base, segment);
    assert(url.take(base.len() as int) =~= base);
}

/// Of the headers of a request, those that go on do so in their order and as they are:
/// one more header of a request adds itself if its name is let through and its value is
/// text, and nothing else.
pub proof fn law_headers_go_on_in_order(
    headers: Seq<(String, Option<String>)>,
    name: String,
    value: Option<String>,
)
    ensures
        going_on(Seq::empty()) == Seq::<(Seq<char>, Seq<char>)>::empty(),
        going_on(headers.push((name, value))) == if value is Some && (lowercased(name@)
            == "content-type"@ || lowercased(name@) == "accept"@ || lowercased(name@)
            == "authorization"@ || lowercased(name@) == "x-request-id"@) {
            going_on(headers).push((name@, value->0@))
        } else {
            going_on(headers)
        },
{
    let all = headers.push((name, value));
    assert(all.drop_last() =~= headers);
    assert(all.last() == (name, value));
}

/// A gateway listens on this machine alone, and the limit that refused a call is told by
/// its name.
pub proof fn law_addresses_and_scopes(port: nat)
    ensures
        local_address(port) == "127.0.0.1:"@ + decimal(port),
        scope_name(LimitScope::Global) == "global"@,
        scope_name(LimitScope::PerTool) == "per-tool"@,
        scope_name(LimitScope::Policy) == "policy"@,
{
}

} // verus!
