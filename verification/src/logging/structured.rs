//! Log lines about the messages that pass.
use vstd::prelude::*;

use crate::clock::{log_format, time_text, Timestamp};
use crate::document::json_text;
use crate::protocol::jsonrpc::{id_label_of, JsonRpcMessage, Message, Request, Response};

verus! {

/// Which way a message goes.
#[derive(Debug, Clone, Copy, PartialEq, Eq, Structural)]
pub enum Direction {
    /// From the agent to the tool server.
    Inbound,
    /// From the tool server to the agent.
    Response,
}

/// The label of a direction; both are as long.
pub open spec fn label_of(d: Direction) -> Seq<char> {
    match d {
        Direction::Inbound => "INBOUND "@,
        Direction::Response => "RESPONSE"@,
    }
}

impl Direction {
    /// The label of the direction.
    pub fn label(&self) -> (s: &'static str)
        ensures
            s@ == label_of(*self),
    {
        match self {
            Direction::Inbound => "INBOUND ",
            Direction::Response => "RESPONSE",
        }
    }
}

/// A message that passes.
#[derive(Debug)]
pub struct LogEvent {
    pub timestamp: Timestamp,
    pub direction: Direction,
    pub message: JsonRpcMessage,
    pub raw: String,
}

/// What a log line says of a message: the method of a request, or that it is a
/// response.
pub open spec fn subject(m: Message) -> Seq<char> {
    match m {
        Message::Request(r) => "method="@ + r.method,
        Message::Response(_) => "response"@,
    }
}

/// The log line about a message.
pub open spec fn line_about(time: (int, int), direction: Direction, m: Message) -> Seq<char> {
    "[agentgate] "@ + time_text(time, log_format()) + " ["@ + label_of(direction) + "] id="@
        + id_label_of(m) + " "@ + subject(m)
}

/// The log line about a message that passes.
pub fn log_line(timestamp: &Timestamp, direction: Direction, message: &JsonRpcMessage) -> (line:
    String)
    ensures
        line@ == line_about(timestamp@, direction, message@),
{
    let mut line = "[agentgate] ".to_owned();
    line.append(timestamp.log_text().as_str());
    line.append(" [");
    line.append(direction.label());
    line.append("] id=");
    line.append(message.id_label().as_str());
    line.append(" ");
    match message {
        JsonRpcMessage::Request(r) => {
            line.append("method=");
            line.append(r.method.as_str());
        },
        JsonRpcMessage::Response(_) => {
            line.append("response");
        },
    }
    assert(line@ =~= line_about(timestamp@, direction, message@));
    line
}

impl LogEvent {
    /// The log line about the event.
    pub fn line(&self) -> (line: String)
        ensures
            line@ == line_about(self.timestamp@, self.direction, self.message@),
    {
        log_line(&self.timestamp, self.direction, &self.message)
    }
}

/// The line about a request names its method and its id, that about a notification says
/// that it is one, and that about a response has the id that it answers.
#[verifier::rlimit(40)]
pub proof fn law_lines_name_the_message(time: (int, int), request: Request, response: Response)
    ensures
        request.id matches Some(id) ==> line_about(
            time,
            Direction::Inbound,
            Message::Request(request),
        ) == "[agentgate] "@ + time_text(time, log_format()) + " [INBOUND ] id="@ + json_text(id)
            + " method="@ + request.method,
        request.id is None ==> line_about(time, Direction::Inbound, Message::Request(request))
            == "[agentgate] "@ + time_text(time, log_format()) + " [INBOUND ] id=notification method="@
            + request.method,
        line_about(time, Direction::Response, Message::Response(response)) == "[agentgate] "@
            + time_text(time, log_format()) + " [RESPONSE] id="@ + json_text(response.id)
            + " response"@,
{
    reveal_strlit(" [");
    reveal_strlit("INBOUND ");
    reveal_strlit("RESPONSE");
    reveal_strlit("] id=");
    reveal_strlit(" ");
    reveal_strlit("method=");
    reveal_strlit("response");
    reveal_strlit("notification");
    reveal_strlit(" [INBOUND ] id=");
    reveal_strlit(" [INBOUND ] id=notification method=");
    reveal_strlit(" [RESPONSE] id=");
    reveal_strlit(" method=");
    reveal_strlit(" response");
    let asked = line_about(time, Direction::Inbound, Message::Request(request));
    let told = line_about(time, Direction::Response, Message::Response(response));
    let when = "[agentgate] "@ + time_text(time, log_format());
    if let Some(id) = request.id {
        assert(asked =~= when + " [INBOUND ] id="@ + json_text(id) + " method="@ + request.method);
    } else {
        assert(asked =~= when + " [INBOUND ] id=notification method="@ + request.method);
    }
    assert(told =~= when + " [RESPONSE] id="@ + json_text(response.id) + " response"@);
}

} // verus!
