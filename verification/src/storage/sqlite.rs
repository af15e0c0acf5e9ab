//! Records of tool calls and the rows of the database that keeps them.
use vstd::prelude::*;
use vstd::utf8::encode_utf8;

use crate::clock::{present, rfc3339_text, rfc3339_time, Timestamp, YEAR_0, YEAR_9999};
use crate::document::{json_parse, json_text, raw_text_key, readable, Doc, READ_DEPTH};
use crate::json::{json_reads, Json, JsonMap};
use crate::protocol::jsonrpc::{copy_opt_json, opt_doc};
use crate::text::{copy_opt, decimal, decimal_text, lemma_decimal_is_digits, opt_text};

verus! {

/// Payloads whose text is longer than this many bytes are not kept.
pub const MAX_PAYLOAD_BYTES: usize = 65_536;

/// How a call ended.
#[derive(Debug, Clone, Copy, PartialEq, Eq, Structural)]
pub enum InvocationStatus {
    Allowed,
    Denied,
    Error,
    RateLimited,
}

/// The name of a status.
pub open spec fn status_name(s: InvocationStatus) -> Seq<char> {
    match s {
        InvocationStatus::Allowed => "allowed"@,
        InvocationStatus::Denied => "denied"@,
        InvocationStatus::Error => "error"@,
        InvocationStatus::RateLimited => "rate_limited"@,
    }
}

/// The status that a name is of.
pub open spec fn status_named(name: Seq<char>) -> Option<InvocationStatus> {
    if name == "allowed"@ {
        Some(InvocationStatus::Allowed)
    } else if name == "denied"@ {
        Some(InvocationStatus::Denied)
    } else if name == "error"@ {
        Some(InvocationStatus::Error)
    } else if name == "rate_limited"@ {
        Some(InvocationStatus::RateLimited)
    } else {
        None
    }
}

impl InvocationStatus {
    /// The name of the status.
    pub fn as_str(&self) -> (s: &'static str)
        ensures
            s@ == status_name(*self),
    {
        match self {
            InvocationStatus::Allowed => "allowed",
            InvocationStatus::Denied => "denied",
            InvocationStatus::Error => "error",
            InvocationStatus::RateLimited => "rate_limited",
        }
    }

    /// The status of that name.
    pub fn parse(s: &str) -> (r: Option<InvocationStatus>)
        ensures
            r == status_named(s@),
    {
        if *s == *"allowed" {
            Some(InvocationStatus::Allowed)
        } else if *s == *"denied" {
            Some(InvocationStatus::Denied)
        } else if *s == *"error" {
            Some(InvocationStatus::Error)
        } else if *s == *"rate_limited" {
            Some(InvocationStatus::RateLimited)
        } else {
            None
        }
    }
}

/// A status is the one that its name is of, and no name but its own is of it.
pub proof fn law_status_names(s: InvocationStatus, name: Seq<char>)
    ensures
        status_named(status_name(s)) == Some(s),
        status_named(name) == Some(s) ==> name == status_name(s),
{
    reveal_strlit("allowed");
    reveal_strlit("denied");
    reveal_strlit("error");
    reveal_strlit("rate_limited");
    assert("allowed"@.len() == 7 && "denied"@.len() == 6);
    assert("error"@.len() == 5 && "rate_limited"@.len() == 12);
}

/// A tool call and how it ended.
#[derive(Debug)]
pub struct InvocationRecord {
    pub id: String,
    pub timestamp: Timestamp,
    pub agent_id: Option<String>,
    pub session_id: Option<String>,
    pub server_name: String,
    pub tool_name: String,
    pub arguments: Option<Json>,
    pub result: Option<Json>,
    pub latency_ms: Option<i64>,
    pub status: InvocationStatus,
    pub policy_hit: Option<String>,
}

/// What a record says.
#[verifier::ext_equal]
pub struct Record {
    pub id: Seq<char>,
    pub timestamp: (int, int),
    pub agent_id: Option<Seq<char>>,
    pub session_id: Option<Seq<char>>,
    pub server_name: Seq<char>,
    pub tool_name: Seq<char>,
    pub arguments: Option<Doc>,
    pub result: Option<Doc>,
    pub latency_ms: Option<i64>,
    pub status: InvocationStatus,
    pub policy_hit: Option<Seq<char>>,
}

impl View for InvocationRecord {
    type V = Record;

    open spec fn view(&self) -> Record {
        Record {
            id: self.id@,
            timestamp: self.timestamp@,
            agent_id: opt_text(self.agent_id),
            session_id: opt_text(self.session_id),
            server_name: self.server_name@,
            tool_name: self.tool_name@,
            arguments: opt_doc(self.arguments),
            result: opt_doc(self.result),
            latency_ms: self.latency_ms,
            status: self.status,
            policy_hit: opt_text(self.policy_hit),
        }
    }
}

impl Clone for InvocationRecord {
    fn clone(&self) -> (r: InvocationRecord)
        ensures
            r@ == self@,
    {
        InvocationRecord {
            id: self.id.clone(),
            timestamp: self.timestamp,
            agent_id: copy_opt(&self.agent_id),
            session_id: copy_opt(&self.session_id),
            server_name: self.server_name.clone(),
            tool_name: self.tool_name.clone(),
            arguments: copy_opt_json(&self.arguments),
            result: copy_opt_json(&self.result),
            latency_ms: self.latency_ms,
            status: self.status,
            policy_hit: copy_opt(&self.policy_hit),
        }
    }
}

/// A row of the database: a record as text and numbers.
#[derive(Debug)]
pub struct StoredRow {
    pub id: String,
    pub timestamp: String,
    pub agent_id: Option<String>,
    pub session_id: Option<String>,
    pub server_name: String,
    pub tool_name: String,
    pub arguments: Option<String>,
    pub result: Option<String>,
    pub latency_ms: Option<i64>,
    pub status: String,
    pub policy_hit: Option<String>,
}

/// What a row says.
#[verifier::ext_equal]
pub struct Row {
    pub id: Seq<char>,
    pub timestamp: Seq<char>,
    pub agent_id: Option<Seq<char>>,
    pub session_id: Option<Seq<char>>,
    pub server_name: Seq<char>,
    pub tool_name: Seq<char>,
    pub arguments: Option<Seq<char>>,
    pub result: Option<Seq<char>>,
    pub latency_ms: Option<i64>,
    pub status: Seq<char>,
    pub policy_hit: Option<Seq<char>>,
}

impl View for StoredRow {
    type V = Row;

    open spec fn view(&self) -> Row {
        Row {
            id: self.id@,
            timestamp: self.timestamp@,
            agent_id: opt_text(self.agent_id),
            session_id: opt_text(self.session_id),
            server_name: self.server_name@,
            tool_name: self.tool_name@,
            arguments: opt_text(self.arguments),
            result: opt_text(self.result),
            latency_ms: self.latency_ms,
            status: self.status@,
            policy_hit: opt_text(self.policy_hit),
        }
    }
}

/// The bytes that a document takes as text.
pub open spec fn payload_size(d: Doc) -> nat {
    encode_utf8(json_text(d)).len()
}

/// What is kept in place of a payload that is too large: a document that says so
/// and how large it was.
pub open spec fn truncation_note(size: nat) -> Doc {
    Doc::Object(
        Map::<Seq<char>, Doc>::empty().insert("_truncated"@, Doc::Bool(true)).insert(
            "original_size_bytes"@,
            Doc::Number(decimal(size)),
        ),
    )
}

/// What is kept of a payload: all of it, or a note that it was too large.
pub open spec fn kept_payload(d: Doc) -> Doc {
    if payload_size(d) <= MAX_PAYLOAD_BYTES {
        d
    } else {
        truncation_note(payload_size(d))
    }
}

/// What is kept of a payload that may be absent.
pub open spec fn kept_opt(d: Option<Doc>) -> Option<Doc> {
    match d {
        Some(d) => Some(kept_payload(d)),
        None => None,
    }
}

/// The text that is kept of a payload that may be absent.
pub open spec fn payload_text(d: Option<Doc>) -> Option<Seq<char>> {
    match d {
        Some(d) => Some(json_text(kept_payload(d))),
        None => None,
    }
}

/// A note about truncation can be read back.
proof fn lemma_note_is_readable(size: nat)
    ensures
        readable(truncation_note(size), READ_DEPTH as nat),
{
    lemma_decimal_is_digits(size);
    let d = truncation_note(size);
    reveal_strlit("$serde_json::private::RawValue");
    reveal_strlit("original_size_bytes");
    reveal_strlit("_truncated");
    assert("_truncated"@.len() < "original_size_bytes"@.len() < raw_text_key().len());
    assert(!d->Object_0.contains_key(raw_text_key()));
    assert forall|k: Seq<char>| #[trigger] d->Object_0.contains_key(k) implies readable(
        d->Object_0[k],
        (READ_DEPTH - 1) as nat,
    ) by {
        if k == "original_size_bytes"@ {
            assert(d->Object_0[k] == Doc::Number(decimal(size)));
        } else {
            assert(d->Object_0[k] == Doc::Bool(true));
        }
    }
}

/// The text that is kept of a payload. It is the text of a document whatever the
/// size of the payload, and one that reads back as what was kept, where the
/// payload does.
fn cap_payload(v: &Json) -> (text: String)
    ensures
        text@ == json_text(kept_payload(v@)),
        readable(v@, READ_DEPTH as nat) ==> json_parse(text@) == Some(kept_payload(v@)),
        payload_size(v@) > MAX_PAYLOAD_BYTES ==> json_parse(text@) == Some(kept_payload(v@)),
{
    broadcast use json_reads;

    let text = v.to_text();
    let size: usize = text.as_str().as_bytes().len();
    if size <= MAX_PAYLOAD_BYTES {
        text
    } else {
        let note = JsonMap::new().insert("_truncated".to_owned(), Json::Bool(true)).insert(
            "original_size_bytes".to_owned(),
            Json::from_u64(size as u64),
        );
        proof {
            lemma_note_is_readable(size as nat);
        }
        Json::Object(note).to_text()
    }
}

/// The record can be told again from its row: the time is in the years that a
/// row can name, and the payloads are too large to be kept or can be read back.
pub open spec fn storable(r: Record) -> bool {
    &&& YEAR_0 <= r.timestamp.0 <= YEAR_9999
    &&& r.arguments matches Some(d) ==> readable(d, READ_DEPTH as nat) || payload_size(d)
        > MAX_PAYLOAD_BYTES
    &&& r.result matches Some(d) ==> readable(d, READ_DEPTH as nat) || payload_size(d)
        > MAX_PAYLOAD_BYTES
}

/// The row that keeps a record.
pub open spec fn row_of(r: Record) -> Row {
    Row {
        id: r.id,
        timestamp: rfc3339_text(r.timestamp),
        agent_id: r.agent_id,
        session_id: r.session_id,
        server_name: r.server_name,
        tool_name: r.tool_name,
        arguments: payload_text(r.arguments),
        result: payload_text(r.result),
        latency_ms: r.latency_ms,
        status: status_name(r.status),
        policy_hit: r.policy_hit,
    }
}

/// What is kept of a record.
pub open spec fn kept(r: Record) -> Record {
    Record { arguments: kept_opt(r.arguments), result: kept_opt(r.result), ..r }
}

/// A payload that a row holds: none where the text is no document.
pub open spec fn payload_of(text: Option<Seq<char>>) -> Option<Doc> {
    match text {
        Some(t) => json_parse(t),
        None => None,
    }
}

/// The record that a row keeps. Where the row does not give a time, it is that of
/// the reading; where it does not give a status, the call counts as allowed.
pub open spec fn record_of(row: Row, now: (int, int)) -> Record {
    Record {
        id: row.id,
        timestamp: match rfc3339_time(row.timestamp) {
            Some(t) => t,
            None => now,
        },
        agent_id: row.agent_id,
        session_id: row.session_id,
        server_name: row.server_name,
        tool_name: row.tool_name,
        arguments: payload_of(row.arguments),
        result: payload_of(row.result),
        latency_ms: row.latency_ms,
        status: match status_named(row.status) {
            Some(s) => s,
            None => InvocationStatus::Allowed,
        },
        policy_hit: row.policy_hit,
    }
}

/// The row that keeps a record. A record told from it, whenever that is, is what
/// was kept of the record.
pub fn record_to_row(r: &InvocationRecord) -> (row: StoredRow)
    ensures
        row@ == row_of(r@),
        storable(r@) ==> forall|now: (int, int)| #[trigger] record_of(row@, now) == kept(r@),
{
    let timestamp = r.timestamp.to_rfc3339();
    let arguments = match &r.arguments {
        Some(v) => Some(cap_payload(v)),
        None => None,
    };
    let result = match &r.result {
        Some(v) => Some(cap_payload(v)),
        None => None,
    };
    let row = StoredRow {
        id: r.id.clone(),
        timestamp,
        agent_id: copy_opt(&r.agent_id),
        session_id: copy_opt(&r.session_id),
        server_name: r.server_name.clone(),
        tool_name: r.tool_name.clone(),
        arguments,
        result,
        latency_ms: r.latency_ms,
        status: r.status.as_str().to_owned(),
        policy_hit: copy_opt(&r.policy_hit),
    };
    proof {
        law_status_names(r.status, row.status@);
        if storable(r@) {
            assert forall|now: (int, int)| #[trigger] record_of(row@, now) == kept(r@) by {
                assert(record_of(row@, now) =~= kept(r@));
            }
        }
    }
    row
}

/// The payload that a row holds.
fn read_payload(text: &Option<String>) -> (j: Option<Json>)
    ensures
        opt_doc(j) == payload_of(opt_text(*text)),
{
    match text {
        Some(t) => Json::parse(t.as_str()),
        None => None,
    }
}

/// The record that a row keeps.
pub fn row_to_record(row: StoredRow) -> (r: InvocationRecord)
    ensures
        exists|now: (int, int)| present(now) && r@ == #[trigger] record_of(row@, now),
{
    let now = Timestamp::now();
    let r = row_to_record_at(row, now);
    assert(r@ == record_of(row@, now@));
    r
}

/// The record that a row keeps, read at `now`.
pub fn row_to_record_at(row: StoredRow, now: Timestamp) -> (r: InvocationRecord)
    ensures
        r@ == record_of(row@, now@),
{
    let timestamp = match Timestamp::parse_from_rfc3339(row.timestamp.as_str()) {
        Some(t) => t,
        None => now,
    };
    let status = match InvocationStatus::parse(row.status.as_str()) {
        Some(s) => s,
        None => InvocationStatus::Allowed,
    };
    InvocationRecord {
        arguments: read_payload(&row.arguments),
        result: read_payload(&row.result),
        id: row.id,
        timestamp,
        agent_id: row.agent_id,
        session_id: row.session_id,
        server_name: row.server_name,
        tool_name: row.tool_name,
        latency_ms: row.latency_ms,
        status,
        policy_hit: row.policy_hit,
    }
}

/// Which records to list.
#[derive(Debug)]
pub struct InvocationFilter {
    pub tool: Option<String>,
    pub status: Option<String>,
    /// How many at most; 0 stands for 50.
    pub limit: usize,
}

impl Default for InvocationFilter {
    fn default() -> (f: InvocationFilter)
        ensures
            f == (InvocationFilter { tool: None, status: None, limit: 0 }),
    {
        InvocationFilter { tool: None, status: None, limit: 0 }
    }
}

/// What a query for rows begins with.
pub open spec fn select_rows() -> Seq<char> {
    "SELECT id, timestamp, agent_id, session_id, server_name, tool_name, arguments, result, latency_ms, status, policy_hit FROM tool_invocations"@
}

/// The condition of a query for the calls of a tool, or with a status, or both.
pub open spec fn where_clause(by_tool: bool, by_status: bool) -> Seq<char> {
    if by_tool && by_status {
        " WHERE tool_name = ? AND status = ?"@
    } else if by_tool {
        " WHERE tool_name = ?"@
    } else if by_status {
        " WHERE status = ?"@
    } else {
        Seq::empty()
    }
}

/// The values that the condition compares with, in their order.
pub open spec fn where_values(tool: Option<Seq<char>>, status: Option<Seq<char>>) -> Seq<Seq<char>> {
    (match tool {
        Some(t) => seq![t],
        None => Seq::empty(),
    }) + (match status {
        Some(s) => seq![s],
        None => Seq::empty(),
    })
}

/// What texts say.
pub open spec fn text_views(texts: Seq<String>) -> Seq<Seq<char>> {
    Seq::new(texts.len(), |i: int| texts[i]@)
}

/// The start and the condition of a query, and the values that it compares with.
pub fn filtered_query(tool: &Option<String>, status: &Option<String>) -> (q: (
    String,
    Vec<String>,
))
    ensures
        q.0@ == select_rows() + where_clause(tool is Some, status is Some),
        text_views(q.1@) == where_values(opt_text(*tool), opt_text(*status)),
{
    let mut sql = "SELECT id, timestamp, agent_id, session_id, server_name, tool_name, arguments, result, latency_ms, status, policy_hit FROM tool_invocations".to_owned();
    let mut values: Vec<String> = Vec::new();
    match (tool, status) {
        (Some(t), Some(s)) => {
            sql.append(" WHERE tool_name = ? AND status = ?");
            values.push(t.clone());
            values.push(s.clone());
        },
        (Some(t), None) => {
            sql.append(" WHERE tool_name = ?");
            values.push(t.clone());
        },
        (None, Some(s)) => {
            sql.append(" WHERE status = ?");
            values.push(s.clone());
        },
        (None, None) => {},
    }
    assert(sql@ =~= select_rows() + where_clause(tool is Some, status is Some));
    assert(text_views(values@) =~= where_values(opt_text(*tool), opt_text(*status)));
    (sql, values)
}

/// The query for the rows that a filter asks for, newest first, and the values
/// for its placeholders.
pub fn query_sql(filter: &InvocationFilter) -> (q: (String, Vec<String>))
    ensures
        q.0@ == select_rows() + where_clause(filter.tool is Some, filter.status is Some)
            + " ORDER BY timestamp DESC LIMIT "@ + decimal(
            if filter.limit == 0 {
                50
            } else {
                filter.limit as nat
            },
        ),
        text_views(q.1@) == where_values(opt_text(filter.tool), opt_text(filter.status)),
{
    let limit: usize = if filter.limit == 0 {
        50
    } else {
        filter.limit
    };
    let (mut sql, values) = filtered_query(&filter.tool, &filter.status);
    sql.append(" ORDER BY timestamp DESC LIMIT ");
    sql.append(decimal_text(limit as u64).as_str());
    (sql, values)
}

/// The names of the statuses in the database.
pub proof fn law_statuses_have_these_names()
    ensures
        status_name(InvocationStatus::Allowed) == "allowed"@,
        status_name(InvocationStatus::Denied) == "denied"@,
        status_name(InvocationStatus::Error) == "error"@,
        status_name(InvocationStatus::RateLimited) == "rate_limited"@,
{
}

/// A payload of up to 65536 bytes is kept as it is; of a larger one a note is kept that
/// says so and how many bytes it had. Whatever else a record says is kept.
#[verifier::rlimit(40)]
pub proof fn law_small_payloads_are_kept_whole(r: Record)
    ensures
        ({
            let k = kept(r);
            &&& r.arguments is None ==> k.arguments is None
            &&& r.result is None ==> k.result is None
            &&& r.arguments is Some && encode_utf8(json_text(r.arguments->0)).len() <= 65536
                ==> k.arguments == r.arguments
            &&& r.result is Some && encode_utf8(json_text(r.result->0)).len() <= 65536 ==> k.result
                == r.result
            &&& r.arguments is Some && encode_utf8(json_text(r.arguments->0)).len() > 65536 ==> {
                &&& k.arguments matches Some(Doc::Object(m))
                &&& m.dom() == set!["_truncated"@, "original_size_bytes"@]
                &&& m["_truncated"@] == Doc::Bool(true)
                &&& m["original_size_bytes"@] == Doc::Number(
                    decimal(encode_utf8(json_text(r.arguments->0)).len()),
                )
            }
            &&& r.result is Some && encode_utf8(json_text(r.result->0)).len() > 65536 ==> {
                &&& k.result matches Some(Doc::Object(m))
                &&& m.dom() == set!["_truncated"@, "original_size_bytes"@]
                &&& m["_truncated"@] == Doc::Bool(true)
                &&& m["original_size_bytes"@] == Doc::Number(
                    decimal(encode_utf8(json_text(r.result->0)).len()),
                )
            }
            &&& k.id == r.id
            &&& k.timestamp == r.timestamp
            &&& k.agent_id == r.agent_id
            &&& k.session_id == r.session_id
            &&& k.server_name == r.server_name
            &&& k.tool_name == r.tool_name
            &&& k.latency_ms == r.latency_ms
            &&& k.status == r.status
            &&& k.policy_hit == r.policy_hit
        }),
{
    reveal_strlit("_truncated");
    reveal_strlit("original_size_bytes");
    assert("_truncated"@.len() != "original_size_bytes"@.len());
    if r.arguments is Some {
        let m = truncation_note(payload_size(r.arguments->0))->Object_0;
        assert(m.dom() =~= set!["_truncated"@, "original_size_bytes"@]);
    }
    if r.result is Some {
        let m = truncation_note(payload_size(r.result->0))->Object_0;
        assert(m.dom() =~= set!["_truncated"@, "original_size_bytes"@]);
    }
}

/// A row holds the record column by column, payloads as the text of what is kept.
pub proof fn law_rows_hold_the_record(r: Record)
    ensures
        ({
            let row = row_of(r);
            &&& row.id == r.id
            &&& row.timestamp == rfc3339_text(r.timestamp)
            &&& row.agent_id == r.agent_id
            &&& row.session_id == r.session_id
            &&& row.server_name == r.server_name
            &&& row.tool_name == r.tool_name
            &&& row.latency_ms == r.latency_ms
            &&& row.policy_hit == r.policy_hit
            &&& row.status == status_name(r.status)
            &&& row.arguments is Some <==> r.arguments is Some
            &&& row.result is Some <==> r.result is Some
            &&& kept(r).arguments matches Some(d) ==> row.arguments == Some(json_text(d))
            &&& kept(r).result matches Some(d) ==> row.result == Some(json_text(d))
        }),
{
}

/// A row is told column by column too: where its time is none it is the time of the
/// reading, where its status is none the call counts as allowed, and where a payload is
/// no JSON there is none.
#[verifier::rlimit(40)]
pub proof fn law_records_are_told_from_rows(row: Row, now: (int, int))
    ensures
        ({
            let r = record_of(row, now);
            &&& r.id == row.id
            &&& r.agent_id == row.agent_id
            &&& r.session_id == row.session_id
            &&& r.server_name == row.server_name
            &&& r.tool_name == row.tool_name
            &&& r.latency_ms == row.latency_ms
            &&& r.policy_hit == row.policy_hit
            &&& rfc3339_time(row.timestamp) is None ==> r.timestamp == now
            &&& rfc3339_time(row.timestamp) matches Some(t) ==> r.timestamp == t
            &&& row.status == "allowed"@ ==> r.status == InvocationStatus::Allowed
            &&& row.status == "denied"@ ==> r.status == InvocationStatus::Denied
            &&& row.status == "error"@ ==> r.status == InvocationStatus::Error
            &&& row.status == "rate_limited"@ ==> r.status == InvocationStatus::RateLimited
            &&& !(seq!["allowed"@, "denied"@, "error"@, "rate_limited"@].contains(row.status))
                ==> r.status == InvocationStatus::Allowed
            &&& row.arguments is None ==> r.arguments is None
            &&& row.arguments matches Some(t) ==> r.arguments == json_parse(t)
            &&& row.result is None ==> r.result is None
            &&& row.result matches Some(t) ==> r.result == json_parse(t)
        }),
{
    law_status_names(InvocationStatus::Allowed, row.status);
    law_status_names(InvocationStatus::Denied, row.status);
    law_status_names(InvocationStatus::Error, row.status);
    law_status_names(InvocationStatus::RateLimited, row.status);
    let names = seq!["allowed"@, "denied"@, "error"@, "rate_limited"@];
    assert(names[0] == "allowed"@ && names[1] == "denied"@);
    assert(names[2] == "error"@ && names[3] == "rate_limited"@);
}

/// How many placeholders a query has.
pub open spec fn placeholders(sql: Seq<char>) -> nat
    decreases sql.len(),
{
    if sql.len() == 0 {
        0
    } else {
        placeholders(sql.drop_last()) + if sql.last() == '?' {
            1nat
        } else {
            0nat
        }
    }
}

proof fn lemma_placeholders_add(a: Seq<char>, b: Seq<char>)
    ensures
        placeholders(a + b) == placeholders(a) + placeholders(b),
    decreases b.len(),
{
    if b.len() == 0 {
        assert(a + b =~= a);
    } else {
        assert((a + b).drop_last() =~= a + b.drop_last());
        assert((a + b).last() == b.last());
        lemma_placeholders_add(a, b.drop_last());
    }
}

proof fn lemma_no_placeholders(s: Seq<char>)
    requires
        forall|i: int| 0 <= i < s.len() ==> #[trigger] s[i] != '?',
    ensures
        placeholders(s) == 0,
    decreases s.len(),
{
    if s.len() > 0 {
        let front = s.drop_last();
        assert forall|i: int| 0 <= i < front.len() implies #[trigger] front[i] != '?' by {
            assert(front[i] == s[i]);
        }
        lemma_no_placeholders(front);
    }
}

/// A query compares the tool with the tool that is asked for and the status with the
/// status that is asked for, in this order, and has a placeholder for each of its
/// values and no other.
#[verifier::rlimit(40)]
pub proof fn law_conditions_have_their_values(tool: Option<Seq<char>>, status: Option<Seq<char>>)
    ensures
        placeholders(where_clause(tool is Some, status is Some)) == where_values(
            tool,
            status,
        ).len(),
        match (tool, status) {
            (Some(t), Some(s)) => where_values(tool, status) == seq![t, s] && where_clause(
                true,
                true,
            ) == " WHERE tool_name = ? AND status = ?"@,
            (Some(t), None) => where_values(tool, status) == seq![t] && where_clause(true, false)
                == " WHERE tool_name = ?"@,
            (None, Some(s)) => where_values(tool, status) == seq![s] && where_clause(false, true)
                == " WHERE status = ?"@,
            (None, None) => where_values(tool, status).len() == 0 && where_clause(
                false,
                false,
            ).len() == 0,
        },
{
    reveal_strlit(" WHERE tool_name = ? AND status = ?");
    reveal_strlit(" WHERE tool_name = ?");
    reveal_strlit(" WHERE status = ?");
    let one = seq!['?'];
    assert(placeholders(one) == 1) by {
        reveal_with_fuel(placeholders, 2);
    }
    let by_tool = " WHERE tool_name = ?"@;
    let a = by_tool.drop_last();
    lemma_no_placeholders(a);
    lemma_placeholders_add(a, one);
    assert(by_tool =~= a + one);
    let by_status = " WHERE status = ?"@;
    let b = by_status.drop_last();
    lemma_no_placeholders(b);
    lemma_placeholders_add(b, one);
    assert(by_status =~= b + one);
    let both = " WHERE tool_name = ? AND status = ?"@;
    let c = both.subrange(20, 34);
    lemma_no_placeholders(c);
    lemma_placeholders_add(c, one);
    assert(both =~= by_tool + (c + one));
    lemma_placeholders_add(by_tool, c + one);
    match (tool, status) {
        (Some(t), Some(s)) => {
            assert(where_values(tool, status) =~= seq![t, s]);
        },
        (Some(t), None) => {
            assert(where_values(tool, status) =~= seq![t]);
        },
        (None, Some(s)) => {
            assert(where_values(tool, status) =~= seq![s]);
        },
        (None, None) => {},
    }
}

/// A query reads the eleven columns of a row, in the order in which a row is told.
pub proof fn law_queries_read_every_column()
    ensures
        select_rows()
            == "SELECT id, timestamp, agent_id, session_id, server_name, tool_name, arguments, result, latency_ms, status, policy_hit FROM tool_invocations"@,
        !select_rows().contains('?'),
{
    reveal_strlit(
        "SELECT id, timestamp, agent_id, session_id, server_name, tool_name, arguments, result, latency_ms, status, policy_hit FROM tool_invocations",
    );
}

} // verus!
