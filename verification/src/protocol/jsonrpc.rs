//! JSON-RPC 2.0 messages.
use vstd::prelude::*;

use crate::document::{json_text, Doc};
use crate::json::{json_reads, Json, JsonMap};
use crate::text::{signed_decimal, signed_decimal_text};

verus! {

/// A request. A notification is a request without an id.
#[derive(Debug)]
pub struct JsonRpcRequest {
    pub jsonrpc: String,
    pub id: Option<Json>,
    pub method: String,
    pub params: Option<Json>,
}

/// The error in a response.
#[derive(Debug)]
pub struct JsonRpcError {
    pub code: i64,
    pub message: String,
    pub data: Option<Json>,
}

/// A response.
#[derive(Debug)]
pub struct JsonRpcResponse {
    pub jsonrpc: String,
    pub id: Json,
    pub result: Option<Json>,
    pub error: Option<JsonRpcError>,
}

/// A message: a request or a response.
#[derive(Debug)]
pub enum JsonRpcMessage {
    Request(JsonRpcRequest),
    Response(JsonRpcResponse),
}

/// What a request says.
#[verifier::ext_equal]
pub struct Request {
    pub jsonrpc: Seq<char>,
    pub id: Option<Doc>,
    pub method: Seq<char>,
    pub params: Option<Doc>,
}

/// What an error says.
#[verifier::ext_equal]
pub struct RpcError {
    pub code: int,
    pub message: Seq<char>,
    pub data: Option<Doc>,
}

/// What a response says.
#[verifier::ext_equal]
pub struct Response {
    pub jsonrpc: Seq<char>,
    pub id: Doc,
    pub result: Option<Doc>,
    pub error: Option<RpcError>,
}

/// What a message says.
#[verifier::ext_equal]
pub enum Message {
    Request(Request),
    Response(Response),
}

/// What an optional value says.
pub open spec fn opt_doc(j: Option<Json>) -> Option<Doc> {
    match j {
        Some(j) => Some(j@),
        None => None,
    }
}

/// A copy of an optional value.
pub fn copy_opt_json(j: &Option<Json>) -> (r: Option<Json>)
    ensures
        opt_doc(r) == opt_doc(*j),
{
    match j {
        Some(j) => Some(j.clone()),
        None => None,
    }
}

/// Whether two optional values say the same.
pub fn same_opt_json(a: &Option<Json>, b: &Option<Json>) -> (r: bool)
    ensures
        r == (opt_doc(*a) == opt_doc(*b)),
{
    match (a, b) {
        (Some(x), Some(y)) => x.same(y),
        (None, None) => true,
        _ => false,
    }
}

impl View for JsonRpcRequest {
    type V = Request;

    open spec fn view(&self) -> Request {
        Request {
            jsonrpc: self.jsonrpc@,
            id: opt_doc(self.id),
            method: self.method@,
            params: opt_doc(self.params),
        }
    }
}

impl View for JsonRpcError {
    type V = RpcError;

    open spec fn view(&self) -> RpcError {
        RpcError { code: self.code as int, message: self.message@, data: opt_doc(self.data) }
    }
}

impl View for JsonRpcResponse {
    type V = Response;

    open spec fn view(&self) -> Response {
        Response {
            jsonrpc: self.jsonrpc@,
            id: self.id@,
            result: opt_doc(self.result),
            error: match self.error {
                Some(e) => Some(e@),
                None => None,
            },
        }
    }
}

impl View for JsonRpcMessage {
    type V = Message;

    open spec fn view(&self) -> Message {
        match self {
            JsonRpcMessage::Request(r) => Message::Request(r@),
            JsonRpcMessage::Response(r) => Message::Response(r@),
        }
    }
}

impl Clone for JsonRpcError {
    fn clone(&self) -> (e: JsonRpcError)
        ensures
            e@ == self@,
    {
        JsonRpcError {
            code: self.code,
            message: self.message.clone(),
            data: copy_opt_json(&self.data),
        }
    }
}

/// A member of an object in text, a comma before it.
pub open spec fn member_text(key: Seq<char>, value: Seq<char>) -> Seq<char> {
    ",\""@ + key + "\":"@ + value
}

/// A member that may be absent.
pub open spec fn opt_member_text(key: Seq<char>, value: Option<Doc>) -> Seq<char> {
    match value {
        Some(d) => member_text(key, json_text(d)),
        None => Seq::empty(),
    }
}

impl Request {
    /// The line that carries the request.
    pub open spec fn text(self) -> Seq<char> {
        "{\"jsonrpc\":"@ + json_text(Doc::Text(self.jsonrpc)) + opt_member_text("id"@, self.id)
            + member_text("method"@, json_text(Doc::Text(self.method))) + opt_member_text(
            "params"@,
            self.params,
        ) + "}"@
    }
}

impl RpcError {
    /// The error as an object in text.
    pub open spec fn text(self) -> Seq<char> {
        "{\"code\":"@ + signed_decimal(self.code) + member_text(
            "message"@,
            json_text(Doc::Text(self.message)),
        ) + opt_member_text("data"@, self.data) + "}"@
    }
}

impl Response {
    /// The line that carries the response.
    pub open spec fn text(self) -> Seq<char> {
        "{\"jsonrpc\":"@ + json_text(Doc::Text(self.jsonrpc)) + member_text(
            "id"@,
            json_text(self.id),
        ) + opt_member_text("result"@, self.result) + (match self.error {
            Some(e) => member_text("error"@, e.text()),
            None => Seq::empty(),
        }) + "}"@
    }
}

/// Appends a member of an object.
fn push_member(out: &mut String, key: &str, value: &str)
    ensures
        final(out)@ == old(out)@ + member_text(key@, value@),
{
    out.append(",\"");
    out.append(key);
    out.append("\":");
    out.append(value);
    assert(out@ =~= old(out)@ + member_text(key@, value@));
}

/// Appends a member of an object, if there is one.
fn push_opt_member(out: &mut String, key: &str, value: &Option<Json>)
    ensures
        final(out)@ == old(out)@ + opt_member_text(key@, opt_doc(*value)),
{
    match value {
        Some(j) => push_member(out, key, j.to_text().as_str()),
        None => {
            assert(out@ =~= old(out)@ + opt_member_text(key@, opt_doc(*value)));
        },
    }
}

impl JsonRpcRequest {
    /// The line that carries the request.
    pub fn to_text(&self) -> (text: String)
        ensures
            text@ == self@.text(),
    {
        let mut out = "{\"jsonrpc\":".to_owned();
        out.append(Json::from_text(self.jsonrpc.as_str()).to_text().as_str());
        push_opt_member(&mut out, "id", &self.id);
        push_member(
            &mut out,
            "method",
            Json::from_text(self.method.as_str()).to_text().as_str(),
        );
        push_opt_member(&mut out, "params", &self.params);
        out.append("}");
        assert(out@ =~= self@.text());
        out
    }
}

impl JsonRpcError {
    /// The error as an object in text.
    fn to_text(&self) -> (text: String)
        ensures
            text@ == self@.text(),
    {
        let mut out = "{\"code\":".to_owned();
        out.append(signed_decimal_text(self.code).as_str());
        push_member(
            &mut out,
            "message",
            Json::from_text(self.message.as_str()).to_text().as_str(),
        );
        push_opt_member(&mut out, "data", &self.data);
        out.append("}");
        assert(out@ =~= self@.text());
        out
    }
}

impl JsonRpcResponse {
    /// The line that carries the response.
    pub fn to_text(&self) -> (text: String)
        ensures
            text@ == self@.text(),
    {
        let mut out = "{\"jsonrpc\":".to_owned();
        out.append(Json::from_text(self.jsonrpc.as_str()).to_text().as_str());
        push_member(&mut out, "id", self.id.to_text().as_str());
        push_opt_member(&mut out, "result", &self.result);
        match &self.error {
            Some(e) => push_member(&mut out, "error", e.to_text().as_str()),
            None => {},
        }
        out.append("}");
        assert(out@ =~= self@.text());
        out
    }
}

/// How an id appears in a log line.
pub open spec fn id_label_of(m: Message) -> Seq<char> {
    match m {
        Message::Request(r) => match r.id {
            Some(d) => json_text(d),
            None => "notification"@,
        },
        Message::Response(r) => json_text(r.id),
    }
}

impl JsonRpcMessage {
    /// The method, if this is a request.
    pub fn method(&self) -> (m: Option<&str>)
        ensures
            match m {
                Some(m) => self@ is Request && m@ == self@->Request_0.method,
                None => self@ is Response,
            },
    {
        match self {
            JsonRpcMessage::Request(r) => Some(r.method.as_str()),
            JsonRpcMessage::Response(_) => None,
        }
    }

    /// The id as it appears in a log line.
    pub fn id_label(&self) -> (label: String)
        ensures
            label@ == id_label_of(self@),
    {
        match self {
            JsonRpcMessage::Request(r) => match &r.id {
                Some(id) => id.to_text(),
                None => "notification".to_owned(),
            },
            JsonRpcMessage::Response(r) => r.id.to_text(),
        }
    }
}

/// The tool that a request to call a tool names.
pub open spec fn tool_of(r: Request) -> Seq<char> {
    match r.params {
        Some(d) => match d.member("name"@) {
            Some(v) => match v.text() {
                Some(name) => name,
                None => "unknown"@,
            },
            None => "unknown"@,
        },
        None => "unknown"@,
    }
}

/// The arguments in a request to call a tool.
pub open spec fn arguments_of(r: Request) -> Option<Doc> {
    match r.params {
        Some(d) => d.member("arguments"@),
        None => None,
    }
}

/// The tool and the arguments of a request to call a tool.
pub fn extract_tool_params(req: &JsonRpcRequest) -> (r: (String, Option<Json>))
    ensures
        r.0@ == tool_of(req@),
        opt_doc(r.1) == arguments_of(req@),
{
    let params = match &req.params {
        Some(params) => params,
        None => {
            return ("unknown".to_owned(), None);
        },
    };
    let tool_name = match params.get("name") {
        Some(v) => match v.as_str() {
            Some(s) => s.to_owned(),
            None => "unknown".to_owned(),
        },
        None => "unknown".to_owned(),
    };
    let arguments = match params.get("arguments") {
        Some(v) => Some(v.clone()),
        None => None,
    };
    (tool_name, arguments)
}

/// The parameters with other arguments, or with none. Parameters that are no
/// object have no arguments and stay as they are.
pub open spec fn with_arguments(params: Option<Doc>, arguments: Option<Doc>) -> Doc {
    let params = match params {
        Some(d) => d,
        None => Doc::Object(Map::empty()),
    };
    match params {
        Doc::Object(m) => match arguments {
            Some(a) => Doc::Object(m.insert("arguments"@, a)),
            None => Doc::Object(m.remove("arguments"@)),
        },
        _ => params,
    }
}

/// The request with other arguments, or with none.
pub fn rebuild_tool_call(
    original: &JsonRpcRequest,
    new_arguments: Option<Json>,
) -> (r: JsonRpcRequest)
    ensures
        r@ == (Request {
            params: Some(with_arguments(original@.params, opt_doc(new_arguments))),
            ..original@
        }),
{
    broadcast use json_reads;

    let params = match &original.params {
        Some(p) => p.clone(),
        None => Json::Object(JsonMap::new()),
    };
    let params = match params {
        Json::Object(map) => match new_arguments {
            Some(args) => Json::Object(map.insert("arguments".to_owned(), args)),
            None => Json::Object(map.remove("arguments")),
        },
        other => other,
    };
    JsonRpcRequest {
        jsonrpc: original.jsonrpc.clone(),
        id: copy_opt_json(&original.id),
        method: original.method.clone(),
        params: Some(params),
    }
}

/// A rebuilt request calls the same tool, unless its parameters are no object,
/// with exactly the arguments that were put in.
pub proof fn law_rebuilding_changes_only_the_arguments(r: Request, arguments: Option<Doc>)
    requires
        r.params matches Some(d) ==> d is Object,
    ensures
        ({
            let rebuilt = Request { params: Some(with_arguments(r.params, arguments)), ..r };
            &&& tool_of(rebuilt) == tool_of(r)
            &&& arguments_of(rebuilt) == arguments
            &&& rebuilt.params->0.member("name"@) == (match r.params {
                Some(d) => d.member("name"@),
                None => None,
            })
        }),
{
    reveal_strlit("name");
    reveal_strlit("arguments");
    assert("name"@.len() != "arguments"@.len());
}

/// The text of a request is one JSON object: its version, its id if it has one, its
/// method, and its parameters if it has any.
#[verifier::rlimit(40)]
pub proof fn law_requests_are_written_so(r: Request)
    ensures
        r.text() == "{\"jsonrpc\":"@ + json_text(Doc::Text(r.jsonrpc)) + (match r.id {
            Some(d) => ",\"id\":"@ + json_text(d),
            None => Seq::empty(),
        }) + ",\"method\":"@ + json_text(Doc::Text(r.method)) + (match r.params {
            Some(d) => ",\"params\":"@ + json_text(d),
            None => Seq::empty(),
        }) + "}"@,
{
    reveal_strlit(",\"");
    reveal_strlit("\":");
    reveal_strlit("id");
    reveal_strlit("method");
    reveal_strlit("params");
    reveal_strlit(",\"id\":");
    reveal_strlit(",\"method\":");
    reveal_strlit(",\"params\":");
    let id = match r.id {
        Some(d) => ",\"id\":"@ + json_text(d),
        None => Seq::empty(),
    };
    let params = match r.params {
        Some(d) => ",\"params\":"@ + json_text(d),
        None => Seq::empty(),
    };
    let method = json_text(Doc::Text(r.method));
    assert(opt_member_text("id"@, r.id) =~= id);
    assert(opt_member_text("params"@, r.params) =~= params);
    assert(member_text("method"@, method) =~= ",\"method\":"@ + method);
    assert(r.text() =~= "{\"jsonrpc\":"@ + json_text(Doc::Text(r.jsonrpc)) + id
        + ",\"method\":"@ + method + params + "}"@);
}

/// The text of a response is one JSON object: its version, the id that it answers, its
/// result if it has one, and its error if it has one.
#[verifier::rlimit(40)]
pub proof fn law_responses_are_written_so(r: Response)
    ensures
        r.text() == "{\"jsonrpc\":"@ + json_text(Doc::Text(r.jsonrpc)) + ",\"id\":"@ + json_text(
            r.id,
        ) + (match r.result {
            Some(d) => ",\"result\":"@ + json_text(d),
            None => Seq::empty(),
        }) + (match r.error {
            Some(e) => ",\"error\":"@ + e.text(),
            None => Seq::empty(),
        }) + "}"@,
        r.error matches Some(e) ==> e.text() == "{\"code\":"@ + signed_decimal(e.code)
            + ",\"message\":"@ + json_text(Doc::Text(e.message)) + (match e.data {
            Some(d) => ",\"data\":"@ + json_text(d),
            None => Seq::empty(),
        }) + "}"@,
{
    reveal_strlit(",\"");
    reveal_strlit("\":");
    reveal_strlit("id");
    reveal_strlit("result");
    reveal_strlit("error");
    reveal_strlit("message");
    reveal_strlit("data");
    reveal_strlit(",\"id\":");
    reveal_strlit(",\"result\":");
    reveal_strlit(",\"error\":");
    reveal_strlit(",\"message\":");
    reveal_strlit(",\"data\":");
    let id = json_text(r.id);
    assert(member_text("id"@, id) =~= ",\"id\":"@ + id);
    let result = match r.result {
        Some(d) => ",\"result\":"@ + json_text(d),
        None => Seq::empty(),
    };
    assert(opt_member_text("result"@, r.result) =~= result);
    let error = match r.error {
        Some(e) => ",\"error\":"@ + e.text(),
        None => Seq::empty(),
    };
    if let Some(e) = r.error {
        assert(member_text("error"@, e.text()) =~= ",\"error\":"@ + e.text());
        let message = json_text(Doc::Text(e.message));
        assert(member_text("message"@, message) =~= ",\"message\":"@ + message);
        let data = match e.data {
            Some(d) => ",\"data\":"@ + json_text(d),
            None => Seq::empty(),
        };
        assert(opt_member_text("data"@, e.data) =~= data);
        assert(e.text() =~= "{\"code\":"@ + signed_decimal(e.code) + ",\"message\":"@ + message
            + data + "}"@);
    }
    assert(r.text() =~= "{\"jsonrpc\":"@ + json_text(Doc::Text(r.jsonrpc)) + ",\"id\":"@ + id
        + result + error + "}"@);
}

/// A call that is rebuilt with other arguments has those, or none where there are none,
/// and is otherwise the same call of the same tool.
pub proof fn law_rebuilt_calls_have_the_new_arguments(r: Request, arguments: Option<Doc>)
    requires
        r.params is None || r.params->0 is Object,
    ensures
        ({
            let rebuilt = Request { params: Some(with_arguments(r.params, arguments)), ..r };
            &&& arguments_of(rebuilt) == arguments
            &&& tool_of(rebuilt) == tool_of(r)
            &&& forall|key: Seq<char>|
                key != "arguments"@ ==> (#[trigger] rebuilt.params->0.member(key)) == (
                match r.params {
                    Some(d) => d.member(key),
                    None => None,
                })
        }),
{
    reveal_strlit("name");
    reveal_strlit("arguments");
    assert("name"@.len() != "arguments"@.len());
    let rebuilt = Request { params: Some(with_arguments(r.params, arguments)), ..r };
    assert(rebuilt.params->0.member("name"@) == (match r.params {
        Some(d) => d.member("name"@),
        None => None,
    }));
}

/// A message goes by the text of its id, and a request without one by `notification`.
pub proof fn law_labels_are_the_ids(request: Request, response: Response)
    ensures
        request.id matches Some(id) ==> id_label_of(Message::Request(request)) == json_text(id),
        request.id is None ==> id_label_of(Message::Request(request)) == "notification"@,
        id_label_of(Message::Response(response)) == json_text(response.id),
{
}

} // verus!
