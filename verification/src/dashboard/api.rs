//! What the dashboard answers.
use vstd::prelude::*;

use crate::document::{json_text, Doc};
use crate::json::{json_reads, Json, JsonMap};
use crate::policy::engine::{all_compiled, Compiled, Policy, PolicyFault};
use crate::policy::rules::Rule;
use crate::storage::sqlite::{
    filtered_query, select_rows, text_views, where_clause, where_values,
};
use crate::text::{joined, opt_text};

verus! {

/// Which invocations a page of the dashboard shows.
#[derive(Debug)]
pub struct InvocationQuery {
    pub limit: Option<usize>,
    pub offset: Option<usize>,
    pub tool: Option<String>,
    pub status: Option<String>,
}

/// The most invocations that a page shows.
pub const MOST_PER_PAGE: usize = 500;

/// A query for a page: its text, the values for its first placeholders, and those
/// for the last two.
#[derive(Debug)]
pub struct PageQuery {
    pub sql: String,
    pub values: Vec<String>,
    pub limit: i64,
    pub offset: i64,
}

/// How many invocations a page shows: as many as asked for, 50 if nothing is
/// said, and never more than a page can.
pub open spec fn page_limit(asked: Option<usize>) -> int {
    let n = match asked {
        Some(n) => n as int,
        None => 50,
    };
    if n <= MOST_PER_PAGE {
        n
    } else {
        MOST_PER_PAGE as int
    }
}

/// The query for a page, newest invocations first.
pub fn page_query(q: &InvocationQuery) -> (p: PageQuery)
    ensures
        p.sql@ == select_rows() + where_clause(q.tool is Some, q.status is Some)
            + " ORDER BY timestamp DESC LIMIT ? OFFSET ?"@,
        text_views(p.values@) == where_values(opt_text(q.tool), opt_text(q.status)),
        p.limit == page_limit(q.limit),
        p.offset == (match q.offset {
            Some(n) => n as i64,
            None => 0i64,
        }),
{
    let asked: usize = match q.limit {
        Some(n) => n,
        None => 50,
    };
    let limit: usize = if asked <= MOST_PER_PAGE {
        asked
    } else {
        MOST_PER_PAGE
    };
    let offset: usize = match q.offset {
        Some(n) => n,
        None => 0,
    };
    let (mut sql, values) = filtered_query(&q.tool, &q.status);
    sql.append(" ORDER BY timestamp DESC LIMIT ? OFFSET ?");
    PageQuery { sql, values, limit: limit as i64, offset: offset as i64 }
}

/// How many calls came in a minute.
#[derive(Debug)]
pub struct SparklinePoint {
    pub bucket: String,
    pub count: i64,
}

/// How many calls came in the last minute that had any; 0 if none had.
pub fn latest_count(points: &Vec<SparklinePoint>) -> (count: i64)
    ensures
        count == (if points@.len() == 0 {
            0
        } else {
            points@.last().count
        }),
{
    let len = points.len();
    if len == 0 {
        0
    } else {
        points[len - 1].count
    }
}

/// An answer of the dashboard.
#[derive(Debug)]
pub struct ApiReply {
    pub status: u16,
    /// The body is JSON, else plain text.
    pub json: bool,
    pub body: String,
}

/// What an answer says.
#[verifier::ext_equal]
pub struct Reply {
    pub status: u16,
    pub json: bool,
    pub body: Seq<char>,
}

impl View for ApiReply {
    type V = Reply;

    open spec fn view(&self) -> Reply {
        Reply { status: self.status, json: self.json, body: self.body@ }
    }
}

/// The answer that something went wrong.
pub open spec fn error_reply(status: u16, error: Seq<char>) -> Reply {
    Reply {
        status,
        json: true,
        body: json_text(
            Doc::Object(Map::<Seq<char>, Doc>::empty().insert("error"@, Doc::Text(error))),
        ),
    }
}

/// The answer that something went wrong.
pub fn error_answer(status: u16, error: &str) -> (r: ApiReply)
    ensures
        r@ == error_reply(status, error@),
{
    broadcast use json_reads;

    let body = JsonMap::new().insert("error".to_owned(), Json::from_text(error));
    ApiReply { status, json: true, body: Json::Object(body).to_text() }
}

/// The answer that the database failed; what failed is not told.
pub fn db_err() -> (r: ApiReply)
    ensures
        r@ == error_reply(500, "Internal server error"@),
{
    error_answer(500, "Internal server error")
}

/// The answer that there is no such invocation.
pub fn not_found() -> (r: ApiReply)
    ensures
        r@ == error_reply(404, "not found"@),
{
    error_answer(404, "not found")
}

/// The answer that tells what the policy file holds.
pub open spec fn file_reply(text: Seq<char>) -> Reply {
    Reply { status: 200, json: false, body: text }
}

/// The answer to a request for the policy file: `content` is what the file holds
/// or why it cannot be read, absent where no policy file is configured.
pub fn policies_answer(content: Option<Result<String, String>>) -> (r: ApiReply)
    ensures
        r@ == (match content {
            None => error_reply(404, "No policy file configured"@),
            Some(Ok(text)) => file_reply(text@),
            Some(Err(reason)) => error_reply(500, reason@),
        }),
{
    match content {
        None => error_answer(404, "No policy file configured"),
        Some(Ok(text)) => ApiReply { status: 200, json: false, body: text },
        Some(Err(reason)) => error_answer(500, reason.as_str()),
    }
}

/// What has happened on the way of a new policy file, each time with the reason
/// where it failed.
#[derive(Debug)]
pub enum PutEvent {
    /// The file was sent.
    Sent { configured: bool },
    /// It was read as a policy.
    Validated { result: Result<(), String> },
    /// It was written in place of the old one; there may be an engine to tell.
    Written { result: Result<(), String>, has_engine: bool },
    /// The engine took it.
    Reloaded { result: Result<(), String> },
}

/// What is done next with a new policy file.
#[derive(Debug)]
pub enum PutAction {
    Validate,
    Write,
    Reload,
    Answer { reply: ApiReply },
}

/// What an action says.
#[verifier::ext_equal]
pub enum PutNext {
    Validate,
    Write,
    Reload,
    Answer { reply: Reply },
}

impl View for PutAction {
    type V = PutNext;

    open spec fn view(&self) -> PutNext {
        match self {
            PutAction::Validate => PutNext::Validate,
            PutAction::Write => PutNext::Write,
            PutAction::Reload => PutNext::Reload,
            PutAction::Answer { reply } => PutNext::Answer { reply: reply@ },
        }
    }
}

/// The answer that all went well.
pub open spec fn ok_reply() -> Reply {
    Reply {
        status: 200,
        json: true,
        body: json_text(Doc::Object(Map::<Seq<char>, Doc>::empty().insert("ok"@, Doc::Bool(true)))),
    }
}

/// What is done after an event: a file that is sent is validated, then written,
/// then handed to the engine, if there is one; whatever fails ends it.
pub open spec fn after_put(event: PutEvent) -> PutNext {
    match event {
        PutEvent::Sent { configured } => if configured {
            PutNext::Validate
        } else {
            PutNext::Answer {
                reply: error_reply(
                    404,
                    "No policy file configured — start AgentGate with --policy"@,
                ),
            }
        },
        PutEvent::Validated { result } => match result {
            Ok(_) => PutNext::Write,
            Err(reason) => PutNext::Answer {
                reply: error_reply(400, "Invalid policy TOML: "@ + reason@),
            },
        },
        PutEvent::Written { result, has_engine } => match result {
            Ok(_) => if has_engine {
                PutNext::Reload
            } else {
                PutNext::Answer { reply: ok_reply() }
            },
            Err(reason) => PutNext::Answer { reply: error_reply(500, reason@) },
        },
        PutEvent::Reloaded { result } => match result {
            Ok(_) => PutNext::Answer { reply: ok_reply() },
            Err(reason) => PutNext::Answer {
                reply: error_reply(500, "Policy reload failed: "@ + reason@),
            },
        },
    }
}

/// The answer that all went well.
fn ok_answer() -> (r: ApiReply)
    ensures
        r@ == ok_reply(),
{
    broadcast use json_reads;

    let body = JsonMap::new().insert("ok".to_owned(), Json::Bool(true));
    ApiReply { status: 200, json: true, body: Json::Object(body).to_text() }
}

/// What is done next with a new policy file.
pub fn put_next(event: PutEvent) -> (action: PutAction)
    ensures
        action@ == after_put(event),
{
    match event {
        PutEvent::Sent { configured } => if configured {
            PutAction::Validate
        } else {
            PutAction::Answer {
                reply: error_answer(
                    404,
                    "No policy file configured — start AgentGate with --policy",
                ),
            }
        },
        PutEvent::Validated { result } => match result {
            Ok(_) => PutAction::Write,
            Err(reason) => PutAction::Answer {
                reply: error_answer(400, joined("Invalid policy TOML: ", reason.as_str()).as_str()),
            },
        },
        PutEvent::Written { result, has_engine } => match result {
            Ok(_) => if has_engine {
                PutAction::Reload
            } else {
                PutAction::Answer { reply: ok_answer() }
            },
            Err(reason) => PutAction::Answer { reply: error_answer(500, reason.as_str()) },
        },
        PutEvent::Reloaded { result } => match result {
            Ok(_) => PutAction::Answer { reply: ok_answer() },
            Err(reason) => PutAction::Answer {
                reply: error_answer(
                    500,
                    joined("Policy reload failed: ", reason.as_str()).as_str(),
                ),
            },
        },
    }
}

/// A policy file that is no policy is not written: it is written only after it
/// was validated.
pub proof fn law_only_valid_policies_are_written(event: PutEvent)
    ensures
        after_put(event) is Write <==> (event matches PutEvent::Validated { result }
            && result is Ok),
{
}

/// A new policy file: its text, and the rules in it, if it is a policy.
pub struct Submission {
    pub text: Seq<char>,
    pub rules: Option<Seq<Rule>>,
}

/// How far a new policy file has come: what has happened last, what the policy file
/// holds now, and the policy of the engine, if there is one.
pub struct Stage {
    pub event: PutEvent,
    pub file: Seq<char>,
    pub engine: Option<Policy>,
}

/// One stage comes of another when what is to be done next is done. To validate is
/// to read the text as a policy; what is written is the text; an engine takes the
/// rules if they compile, and stays as it was if they do not.
pub open spec fn comes_of(before: Stage, after: Stage, sent: Submission) -> bool {
    match (after_put(before.event), after.event) {
        (PutNext::Validate, PutEvent::Validated { result }) => {
            &&& result is Ok <==> sent.rules is Some
            &&& after.file == before.file
            &&& after.engine == before.engine
        },
        (PutNext::Write, PutEvent::Written { result, has_engine }) => {
            &&& result is Ok ==> after.file == sent.text
            &&& has_engine == (before.engine is Some)
            &&& after.engine == before.engine
        },
        (PutNext::Reload, PutEvent::Reloaded { result }) => {
            let policy = before.engine->0;
            &&& after.file == before.file
            &&& match all_compiled(sent.rules->0) {
                Ok(rules) => result is Ok && after.engine == Some(Policy { rules, ..policy }),
                Err(_) => result is Err && after.engine == before.engine,
            }
        },
        _ => false,
    }
}

/// The way of a new policy file, from when it was sent to the answer.
pub open spec fn is_way(way: Seq<Stage>, sent: Submission) -> bool {
    &&& way.len() > 0
    &&& way[0].event is Sent
    &&& forall|i: int|
        0 <= i < way.len() - 1 ==> comes_of(#[trigger] way[i], way[i + 1], sent)
    &&& after_put(way.last().event) is Answer
}

/// Over the whole way of a new policy file: where none is configured, the answer is
/// that, and a text that is no policy is refused, and neither changes the file or
/// the engine. Where all went well, the text was a policy, the policy file holds it
/// and tells it to whoever asks, and the engine, if there is one, decides by its
/// rules and has kept what rate limits have counted.
pub proof fn law_an_accepted_policy_is_in_force(way: Seq<Stage>, sent: Submission)
    requires
        is_way(way, sent),
    ensures
        ({
            let first = way[0];
            let last = way.last();
            let reply = after_put(last.event)->reply;
            let configured = first.event->configured;
            &&& reply.status == 404 <==> !configured
            &&& reply.status == 400 <==> configured && sent.rules is None
            &&& reply.status == 404 || reply.status == 400 ==> last.file == first.file
                && last.engine == first.engine
            &&& reply.status == 200 <==> reply == ok_reply()
            &&& reply == ok_reply() ==> {
                &&& configured && sent.rules is Some
                &&& last.file == sent.text
                &&& file_reply(last.file).body == sent.text
                &&& match first.engine {
                    None => last.engine is None,
                    Some(policy) => last.engine is Some && last.engine->0.buckets == policy.buckets
                        && all_compiled(sent.rules->0) == Ok::<Seq<Compiled>, PolicyFault>(
                        last.engine->0.rules,
                    ),
                }
            }
        }),
{
    if way.len() > 1 {
        assert(comes_of(way[0], way[1], sent));
        if way.len() > 2 {
            assert(comes_of(way[1], way[2], sent));
            if way.len() > 3 {
                assert(comes_of(way[2], way[3], sent));
                if way.len() > 4 {
                    assert(comes_of(way[3], way[4], sent));
                }
            }
        }
    }
}

/// A page shows fifty invocations where nothing is said, as many as asked for up to five
/// hundred, and five hundred where more are asked for.
pub proof fn law_pages_have_their_size(n: usize)
    ensures
        page_limit(None) == 50,
        n <= 500 ==> page_limit(Some(n)) == n,
        n > 500 ==> page_limit(Some(n)) == 500,
{
}

/// A new policy file is validated, then written, then handed to the engine, and the
/// answer says which of these failed and why.
pub proof fn law_every_step_has_its_answer(reason: String)
    ensures
        after_put(PutEvent::Sent { configured: true }) == PutNext::Validate,
        after_put(PutEvent::Sent { configured: false })->reply.status == 404,
        after_put(PutEvent::Validated { result: Ok(()) }) == PutNext::Write,
        after_put(PutEvent::Validated { result: Err(reason) }) == (PutNext::Answer {
            reply: error_reply(400, "Invalid policy TOML: "@ + reason@),
        }),
        after_put(PutEvent::Written { result: Ok(()), has_engine: true }) == PutNext::Reload,
        after_put(PutEvent::Written { result: Ok(()), has_engine: false })->reply.status == 200,
        after_put(PutEvent::Written { result: Err(reason), has_engine: true }) == (
        PutNext::Answer { reply: error_reply(500, reason@) }),
        after_put(PutEvent::Written { result: Err(reason), has_engine: false }) == (
        PutNext::Answer { reply: error_reply(500, reason@) }),
        after_put(PutEvent::Reloaded { result: Ok(()) })->reply.status == 200,
        after_put(PutEvent::Reloaded { result: Err(reason) }) == (PutNext::Answer {
            reply: error_reply(500, "Policy reload failed: "@ + reason@),
        }),
{
}

/// An answer that something went wrong has the status and a JSON object with one member,
/// `error`, which says what.
pub proof fn law_errors_are_told_as_json(status: u16, error: Seq<char>, text: Seq<char>)
    ensures
        error_reply(status, error).status == status,
        error_reply(status, error).json,
        error_reply(status, error).body == json_text(
            Doc::Object(map!["error"@ => Doc::Text(error)]),
        ),
        ok_reply().body == json_text(Doc::Object(map!["ok"@ => Doc::Bool(true)])),
        ok_reply().json && ok_reply().status == 200,
        file_reply(text) == (Reply { status: 200, json: false, body: text }),
{
    assert(Map::<Seq<char>, Doc>::empty().insert("error"@, Doc::Text(error)) =~= map![
        "error"@ => Doc::Text(error)
    ]);
    assert(Map::<Seq<char>, Doc>::empty().insert("ok"@, Doc::Bool(true)) =~= map![
        "ok"@ => Doc::Bool(true)
    ]);
}

} // verus!
