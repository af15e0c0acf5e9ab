//! The gateway before a tool server that is reached over HTTP.
use vstd::prelude::*;

use super::evaluation::{error_resp, error_response};
use super::upstream::{
    ended, expand_headers, expanded_headers, header_views, outcome_of, Gateway, ProxyError,
};
use crate::clock::{id_shape, present, random_id, Timestamp};
use crate::config::ServerEntry;
use crate::json::Json;
use crate::policy::condition::doc_of;
use crate::protocol::jsonrpc::opt_doc;
use crate::ratelimit::token_bucket::passed;
use crate::storage::sqlite::{InvocationRecord, Record};
use crate::text::{joined, lowercase, lowercased, opt_text, trim_trailing, without_trailing};

verus! {

/// The gateway before a tool server that is reached over HTTP.
pub struct HttpProxy {
    pub upstream_url: String,
    pub extra_headers: Vec<(String, String)>,
    pub bind_port: u16,
    pub gateway: Gateway,
}

impl HttpProxy {
    /// The gateway before the tool server of an entry, whose headers may name
    /// variables.
    pub fn new(
        entry: &ServerEntry,
        vars: &Vec<(String, String)>,
        gateway: Gateway,
    ) -> (p: Result<HttpProxy, ProxyError>)
        ensures
            match p {
                Ok(p) => {
                    &&& entry.url is Some
                    &&& p.upstream_url@ == entry.url->0@
                    &&& header_views(p.extra_headers@) == expanded_headers(entry.headers@, vars@)
                    &&& p.bind_port == (match entry.bind_port {
                        Some(n) => n,
                        None => 7072,
                    })
                    &&& p.gateway == gateway
                },
                Err(e) => entry.url is None && e == ProxyError::MissingUrl,
            },
    {
        match &entry.url {
            Some(url) => Ok(
                HttpProxy {
                    upstream_url: url.clone(),
                    extra_headers: expand_headers(&entry.headers, vars),
                    bind_port: match entry.bind_port {
                        Some(n) => n,
                        None => 7072,
                    },
                    gateway,
                },
            ),
            None => Err(ProxyError::MissingUrl),
        }
    }

    /// Where a request for a path goes.
    pub fn upstream_for(&self, path: &str) -> (url: String)
        ensures
            url@ == without_trailing(self.upstream_url@, '/') + path@,
    {
        joined(trim_trailing(self.upstream_url.as_str(), '/').as_str(), path)
    }

    /// The record of a call that began when the clock read `started_at` and that
    /// the tool server answered with this status when it read `now`.
    pub fn finished(
        &self,
        tool_name: &str,
        arguments: Option<Json>,
        status: u16,
        started_at: u128,
        now: u128,
    ) -> (r: InvocationRecord)
        ensures
            id_shape(r@.id),
            present(r@.timestamp),
            r@ == (Record {
                id: r@.id,
                timestamp: r@.timestamp,
                agent_id: None,
                session_id: None,
                server_name: self.gateway.server_name@,
                tool_name: tool_name@,
                arguments: opt_doc(arguments),
                result: None,
                latency_ms: Some((passed(started_at as nat, now as nat) / 1_000_000) as i64),
                status: ended(status),
                policy_hit: None,
            }),
    {
        let nanos: u128 = if now > started_at {
            now - started_at
        } else {
            0
        };
        InvocationRecord {
            id: random_id(),
            timestamp: Timestamp::now(),
            agent_id: None,
            session_id: None,
            server_name: self.gateway.server_name.clone(),
            tool_name: tool_name.to_owned(),
            arguments,
            result: None,
            latency_ms: Some((nanos / 1_000_000) as i64),
            status: outcome_of(status),
            policy_hit: None,
        }
    }
}

/// Whether the body of a request is looked at: that of a POST is.
pub fn inspects(method: &str) -> (r: bool)
    ensures
        r == (method@ == "POST"@),
{
    *method == *"POST"
}

/// The headers of a request that go on to the tool server, by their names in
/// lower case.
pub open spec fn goes_on(name: Seq<char>) -> bool {
    name == "content-type"@ || name == "accept"@ || name == "authorization"@ || name
        == "x-request-id"@
}

/// The headers of an answer that go back to the agent, by their names in lower
/// case.
pub open spec fn comes_back(name: Seq<char>) -> bool {
    name == "content-type"@ || name == "content-length"@ || name == "transfer-encoding"@ || name
        == "cache-control"@
}

/// Whether a header of a request, named in lower case, goes on.
pub fn lower_header_goes_on(lower: &str) -> (r: bool)
    ensures
        r == goes_on(lower@),
{
    *lower == *"content-type" || *lower == *"accept" || *lower == *"authorization" || *lower
        == *"x-request-id"
}

/// Whether a header of an answer, named in lower case, comes back.
pub fn lower_header_comes_back(lower: &str) -> (r: bool)
    ensures
        r == comes_back(lower@),
{
    *lower == *"content-type" || *lower == *"content-length" || *lower == *"transfer-encoding"
        || *lower == *"cache-control"
}

/// Whether a header of a request goes on to the tool server.
pub fn request_header_goes_on(name: &str) -> (r: bool)
    ensures
        r == goes_on(lowercased(name@)),
{
    lower_header_goes_on(lowercase(name).as_str())
}

/// Whether a header of an answer goes back to the agent.
pub fn answer_header_comes_back(name: &str) -> (r: bool)
    ensures
        r == comes_back(lowercased(name@)),
{
    lower_header_comes_back(lowercase(name).as_str())
}

/// The headers of a request that go on: those among the first few, in their
/// order, whose names are let through and whose values are text.
pub open spec fn going_on(headers: Seq<(String, Option<String>)>) -> Seq<(Seq<char>, Seq<char>)>
    decreases headers.len(),
{
    if headers.len() == 0 {
        Seq::empty()
    } else {
        let front = going_on(headers.drop_last());
        let (name, value) = headers.last();
        match opt_text(value) {
            Some(v) => if goes_on(lowercased(name@)) {
                front.push((name@, v))
            } else {
                front
            },
            None => front,
        }
    }
}

/// The headers that are sent to the tool server: those of the request that go
/// on, then those that are sent with every request.
pub fn headers_to_send(
    inbound: &Vec<(String, Option<String>)>,
    extra: &Vec<(String, String)>,
) -> (out: Vec<(String, String)>)
    ensures
        header_views(out@) == going_on(inbound@) + header_views(extra@),
{
    let mut out: Vec<(String, String)> = Vec::new();
    let mut i: usize = 0;
    assert(inbound@.take(0) =~= Seq::empty());
    assert(header_views(out@) =~= Seq::empty());
    while i < inbound.len()
        invariant
            i <= inbound@.len(),
            header_views(out@) == going_on(inbound@.take(i as int)),
        decreases inbound@.len() - i,
    {
        let header = &inbound[i];
        let ghost done = out@;
        proof {
            assert(inbound@.take(i + 1).drop_last() =~= inbound@.take(i as int));
            assert(inbound@.take(i + 1).last() == inbound@[i as int]);
        }
        if request_header_goes_on(header.0.as_str()) {
            if let Some(value) = &header.1 {
                out.push((header.0.clone(), value.clone()));
                assert(header_views(out@) =~= header_views(done).push((header.0@, value@)));
            }
        }
        i += 1;
    }
    assert(inbound@.take(i as int) =~= inbound@);
    let ghost front = header_views(out@);
    let mut k: usize = 0;
    assert(header_views(extra@.take(0)) =~= Seq::empty());
    assert(front + header_views(extra@.take(0)) =~= front);
    while k < extra.len()
        invariant
            k <= extra@.len(),
            header_views(out@) == front + header_views(extra@.take(k as int)),
        decreases extra@.len() - k,
    {
        let ghost done = out@;
        out.push((extra[k].0.clone(), extra[k].1.clone()));
        proof {
            let one = (extra@[k as int].0@, extra@[k as int].1@);
            assert(header_views(out@) =~= header_views(done).push(one));
            assert(header_views(extra@.take(k + 1)) =~= header_views(extra@.take(k as int)).push(
                one,
            ));
        }
        k += 1;
    }
    assert(extra@.take(k as int) =~= extra@);
    out
}

/// The body that carries an error.
pub fn error_response_body(id: Option<&Json>, code: i64, message: &str) -> (body: String)
    ensures
        body@ == error_response(doc_of(id), code as int, message@, None).text(),
{
    let id = match id {
        Some(id) => Some(id.clone()),
        None => None,
    };
    error_resp(&id, code, message, None).to_text()
}

} // verus!
