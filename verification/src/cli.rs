//! The command line: what its arguments mean, and what its commands print.
use vstd::prelude::*;

use crate::chars::{is_white, white};
use crate::clock::{table_format, time_text};
use crate::config::{
    agentgate_dir, join_path, opt_str, own_dir, path_in, AgentGateConfig, TransportKind,
};
use crate::proxy::sse::{last_slash, lemma_last_slash};
use crate::proxy::upstream::header_views;
use crate::storage::sqlite::{status_name, text_views, InvocationRecord};
use crate::text::{
    after_prefix, begins_with, chars_of, decimal, decimal_text, joined, opt_text, signed_decimal,
    signed_decimal_text, text_between,
};

verus! {

/// Why the arguments mean nothing.
#[derive(Debug)]
pub enum CliError {
    UnknownTransport { name: String },
    InvalidHeader { header: String },
    /// The stdio transport has a command of its own.
    StdioTransport,
    NoCommand,
}

/// What an error says.
#[verifier::ext_equal]
pub enum CliFault {
    UnknownTransport { name: Seq<char> },
    InvalidHeader { header: Seq<char> },
    StdioTransport,
    NoCommand,
}

impl View for CliError {
    type V = CliFault;

    open spec fn view(&self) -> CliFault {
        match self {
            CliError::UnknownTransport { name } => CliFault::UnknownTransport { name: name@ },
            CliError::InvalidHeader { header } => CliFault::InvalidHeader { header: header@ },
            CliError::StdioTransport => CliFault::StdioTransport,
            CliError::NoCommand => CliFault::NoCommand,
        }
    }
}

/// What the user is told of an error.
pub open spec fn told(fault: CliFault) -> Seq<char> {
    match fault {
        CliFault::UnknownTransport { name } => "Unknown transport '"@ + name
            + "'. Valid values: sse, http"@,
        CliFault::InvalidHeader { header } => "Invalid header '"@ + header
            + "'. Use Key: Value format"@,
        CliFault::StdioTransport => "Use `agentgate wrap` for stdio transport"@,
        CliFault::NoCommand => "error: no command specified. Usage: agentgate wrap -- <cmd> [args...]"@,
    }
}

impl CliError {
    /// What the user is told.
    pub fn message(&self) -> (text: String)
        ensures
            text@ == told(self@),
    {
        match self {
            CliError::UnknownTransport { name } => {
                let mut text = "Unknown transport '".to_owned();
                text.append(name.as_str());
                text.append("'. Valid values: sse, http");
                text
            },
            CliError::InvalidHeader { header } => {
                let mut text = "Invalid header '".to_owned();
                text.append(header.as_str());
                text.append("'. Use Key: Value format");
                text
            },
            CliError::StdioTransport => "Use `agentgate wrap` for stdio transport".to_owned(),
            CliError::NoCommand => "error: no command specified. Usage: agentgate wrap -- <cmd> [args...]".to_owned(),
        }
    }
}

/// The transport of that name.
pub fn parse_transport(name: &str) -> (t: Result<TransportKind, CliError>)
    ensures
        match t {
            Ok(t) => (name@ == "sse"@ && t == TransportKind::Sse) || (name@ == "http"@ && t
                == TransportKind::Http),
            Err(e) => name@ != "sse"@ && name@ != "http"@ && e@ == (CliFault::UnknownTransport {
                name: name@,
            }),
        },
{
    proof {
        reveal_strlit("sse");
        reveal_strlit("http");
    }
    if *name == *"sse" {
        Ok(TransportKind::Sse)
    } else if *name == *"http" {
        Ok(TransportKind::Http)
    } else {
        Err(CliError::UnknownTransport { name: name.to_owned() })
    }
}

/// `s` without the white space at its start.
pub open spec fn without_leading_white(s: Seq<char>) -> Seq<char>
    decreases s.len(),
{
    if s.len() > 0 && white(s[0]) {
        without_leading_white(s.skip(1))
    } else {
        s
    }
}

/// `s` without the white space at its end.
pub open spec fn without_trailing_white(s: Seq<char>) -> Seq<char>
    decreases s.len(),
{
    if s.len() > 0 && white(s.last()) {
        without_trailing_white(s.drop_last())
    } else {
        s
    }
}

/// `s` without the white space around it.
pub open spec fn trimmed(s: Seq<char>) -> Seq<char> {
    without_trailing_white(without_leading_white(s))
}

/// The text of some characters without the white space around it.
fn trim(chars: &Vec<char>, from: usize, to: usize) -> (text: String)
    requires
        from <= to <= chars@.len(),
    ensures
        text@ == trimmed(chars@.subrange(from as int, to as int)),
{
    let ghost all = chars@.subrange(from as int, to as int);
    let mut start: usize = from;
    while start < to && is_white(chars[start])
        invariant
            from <= start <= to <= chars@.len(),
            without_leading_white(chars@.subrange(start as int, to as int))
                == without_leading_white(all),
        decreases to - start,
    {
        assert(chars@.subrange(start as int, to as int).skip(1) =~= chars@.subrange(
            start + 1,
            to as int,
        ));
        start += 1;
    }
    let ghost front = chars@.subrange(start as int, to as int);
    assert(without_leading_white(all) == front);
    let mut end: usize = to;
    while end > start && is_white(chars[end - 1])
        invariant
            start <= end <= to <= chars@.len(),
            front == chars@.subrange(start as int, to as int),
            without_trailing_white(chars@.subrange(start as int, end as int))
                == without_trailing_white(front),
        decreases end,
    {
        assert(chars@.subrange(start as int, end as int).drop_last() =~= chars@.subrange(
            start as int,
            end - 1,
        ));
        end -= 1;
    }
    text_between(chars, start, end)
}

/// Where the first colon stands, or the end of the text.
pub open spec fn colon_at(s: Seq<char>, i: int) -> int
    decreases s.len() - i,
{
    if i < 0 || i >= s.len() || s[i] == ':' {
        i
    } else {
        colon_at(s, i + 1)
    }
}

/// The name and the value of a header: what stands before and after the first
/// colon, without white space around them.
pub open spec fn header_of(h: Seq<char>) -> Option<(Seq<char>, Seq<char>)> {
    let at = colon_at(h, 0);
    if at < h.len() {
        Some((trimmed(h.take(at)), trimmed(h.skip(at + 1))))
    } else {
        None
    }
}

/// Reads a header.
pub fn parse_header(header: &str) -> (r: Result<(String, String), CliError>)
    ensures
        match r {
            Ok((k, v)) => header_of(header@) == Some((k@, v@)),
            Err(e) => header_of(header@) is None && e@ == (CliFault::InvalidHeader {
                header: header@,
            }),
        },
{
    let chars = chars_of(header);
    let len = chars.len();
    let mut at: usize = 0;
    while at < len && chars[at] != ':'
        invariant
            at <= len,
            len == chars@.len(),
            chars@ == header@,
            colon_at(header@, 0) == colon_at(header@, at as int),
        decreases len - at,
    {
        at += 1;
    }
    if at < len {
        let name = trim(&chars, 0, at);
        let value = trim(&chars, at + 1, len);
        proof {
            assert(header@.subrange(0, at as int) =~= header@.take(at as int));
            assert(header@.subrange(at + 1, len as int) =~= header@.skip(at + 1));
        }
        Ok((name, value))
    } else {
        Err(CliError::InvalidHeader { header: header.to_owned() })
    }
}

/// Headers with one set: in its place if the name is there already, else at the
/// end.
pub open spec fn with_header(
    headers: Seq<(Seq<char>, Seq<char>)>,
    name: Seq<char>,
    value: Seq<char>,
) -> Seq<(Seq<char>, Seq<char>)>
    decreases headers.len(),
{
    if headers.len() == 0 {
        seq![(name, value)]
    } else if headers[0].0 == name {
        seq![(name, value)] + headers.skip(1)
    } else {
        seq![headers[0]] + with_header(headers.skip(1), name, value)
    }
}

/// The headers that these texts make, one after the other; the first text that
/// is none ends it.
pub open spec fn headers_of(texts: Seq<Seq<char>>) -> Result<
    Seq<(Seq<char>, Seq<char>)>,
    CliFault,
>
    decreases texts.len(),
{
    if texts.len() == 0 {
        Ok(Seq::empty())
    } else {
        match headers_of(texts.drop_last()) {
            Err(fault) => Err(fault),
            Ok(front) => match header_of(texts.last()) {
                Some((name, value)) => Ok(with_header(front, name, value)),
                None => Err(CliFault::InvalidHeader { header: texts.last() }),
            },
        }
    }
}

proof fn lemma_first_bad_header(texts: Seq<Seq<char>>, n: int)
    requires
        0 <= n <= texts.len(),
        headers_of(texts.take(n)) is Err,
    ensures
        headers_of(texts) == headers_of(texts.take(n)),
    decreases texts.len(),
{
    if n == texts.len() {
        assert(texts.take(n) =~= texts);
    } else {
        assert(texts.drop_last().take(n) =~= texts.take(n));
        lemma_first_bad_header(texts.drop_last(), n);
    }
}

/// Sets a header.
fn set_header(headers: &mut Vec<(String, String)>, name: String, value: String)
    ensures
        header_views(final(headers)@) == with_header(header_views(old(headers)@), name@, value@),
{
    let ghost all = header_views(headers@);
    let mut i: usize = 0;
    assert(all.skip(0) =~= all);
    assert(all.take(0) + with_header(all.skip(0), name@, value@) =~= with_header(
        all,
        name@,
        value@,
    ));
    while i < headers.len()
        invariant
            i <= headers@.len(),
            all == header_views(headers@),
            headers@ == old(headers)@,
            all.take(i as int) + with_header(all.skip(i as int), name@, value@) == with_header(
                all,
                name@,
                value@,
            ),
        decreases headers@.len() - i,
    {
        proof {
            assert(all.skip(i as int)[0] == all[i as int]);
            assert(all.skip(i as int).skip(1) =~= all.skip(i + 1));
        }
        if *headers[i].0.as_str() == *name.as_str() {
            headers.set(i, (name, value));
            assert(header_views(headers@) =~= all.take(i as int) + (seq![(name@, value@)]
                + all.skip(i + 1)));
            return;
        }
        proof {
            assert(all.take(i as int) + (seq![all[i as int]] + with_header(
                all.skip(i + 1),
                name@,
                value@,
            )) =~= all.take(i + 1) + with_header(all.skip(i + 1), name@, value@));
        }
        i += 1;
    }
    headers.push((name, value));
    assert(all.skip(i as int).len() == 0);
    assert(header_views(headers@) =~= all.take(i as int) + seq![(name@, value@)]);
}

/// Reads headers; where a name comes again, the later value counts.
pub fn parse_headers(texts: &Vec<String>) -> (r: Result<Vec<(String, String)>, CliError>)
    ensures
        match r {
            Ok(h) => headers_of(text_views(texts@)) == Ok::<Seq<(Seq<char>, Seq<char>)>, CliFault>(
                header_views(h@),
            ),
            Err(e) => headers_of(text_views(texts@)) == Err::<
                Seq<(Seq<char>, Seq<char>)>,
                CliFault,
            >(e@),
        },
{
    let ghost all = text_views(texts@);
    let mut out: Vec<(String, String)> = Vec::new();
    let mut i: usize = 0;
    assert(all.take(0) =~= Seq::empty());
    assert(header_views(out@) =~= Seq::empty());
    while i < texts.len()
        invariant
            i <= texts@.len(),
            all == text_views(texts@),
            headers_of(all.take(i as int)) == Ok::<Seq<(Seq<char>, Seq<char>)>, CliFault>(
                header_views(out@),
            ),
        decreases texts@.len() - i,
    {
        proof {
            assert(all.take(i + 1).drop_last() =~= all.take(i as int));
            assert(all.take(i + 1).last() == texts@[i as int]@);
        }
        match parse_header(texts[i].as_str()) {
            Ok((name, value)) => set_header(&mut out, name, value),
            Err(e) => {
                proof {
                    lemma_first_bad_header(all, i + 1);
                }
                return Err(e);
            },
        }
        i += 1;
    }
    assert(all.take(i as int) =~= all);
    Ok(out)
}

/// The value of the header of that name.
pub open spec fn header_value(headers: Seq<(Seq<char>, Seq<char>)>, name: Seq<char>) -> Option<
    Seq<char>,
>
    decreases headers.len(),
{
    if headers.len() == 0 {
        None
    } else if headers[0].0 == name {
        Some(headers[0].1)
    } else {
        header_value(headers.skip(1), name)
    }
}

/// A header that is set has the value it was set to; the others keep theirs.
pub proof fn law_the_later_header_counts(
    headers: Seq<(Seq<char>, Seq<char>)>,
    name: Seq<char>,
    value: Seq<char>,
    other: Seq<char>,
)
    ensures
        header_value(with_header(headers, name, value), name) == Some(value),
        other != name ==> header_value(with_header(headers, name, value), other) == header_value(
            headers,
            other,
        ),
    decreases headers.len(),
{
    let after = with_header(headers, name, value);
    if headers.len() == 0 {
        assert(header_value(after.skip(1), other) is None);
    } else {
        let rest = headers.skip(1);
        law_the_later_header_counts(rest, name, value, other);
        if headers[0].0 == name {
            assert(after.skip(1) =~= rest);
        } else {
            assert(after.skip(1) =~= with_header(rest, name, value));
        }
    }
}

/// The last part of a path, if it has one that is a name: empty parts and those
/// that stand for the directory itself are passed over; one that stands for the
/// directory above is no name.
pub open spec fn last_part(path: Seq<char>) -> Option<Seq<char>>
    decreases path.len(),
{
    let slash = last_slash(path);
    let part = path.skip(slash + 1);
    if part.len() == 0 || part == "."@ {
        if 0 <= slash < path.len() {
            last_part(path.take(slash))
        } else {
            None
        }
    } else if part == ".."@ {
        None
    } else {
        Some(part)
    }
}

/// A path that every machine takes apart at its slashes alone: no backslash stands
/// in it, no colon, and no two slashes in front.
pub open spec fn portable(path: Seq<char>) -> bool {
    &&& !path.contains('\\')
    &&& !path.contains(':')
    &&& !begins_with(path, "//"@)
}

/// The name stands somewhere in the path.
pub open spec fn stands_in(name: Seq<char>, path: Seq<char>) -> bool {
    exists|i: int|
        0 <= i <= path.len() - name.len() && #[trigger] path.subrange(i, i + name.len()) == name
}

/// This may be the last part of a path on a machine that puts `separator` between
/// parts: that after the slashes, where the machine goes by slashes or the path is
/// one that every machine takes apart so; else something in the path.
pub open spec fn may_be_last(path: Seq<char>, separator: char, name: Option<Seq<char>>) -> bool {
    if separator == '/' || portable(path) {
        name == last_part(path)
    } else {
        name matches Some(n) ==> n.len() > 0 && stands_in(n, path)
    }
}

/// `std::path::Path::file_name`: the last part of a path by the rules of the
/// machine, which decides what separates parts and what stands in front of them. It
/// is something in the path; more is not said of it.
#[verifier::external_body]
fn machine_file_name(path: &str) -> (name: Option<String>)
    ensures
        name matches Some(n) ==> n@.len() > 0 && stands_in(n@, path@),
{
    std::path::Path::new(path).file_name()?.to_str().map(|n| n.to_string())
}

/// Whether every machine takes the path apart at its slashes alone.
fn is_portable(path: &str) -> (r: bool)
    ensures
        r == portable(path@),
{
    let chars = chars_of(path);
    let mut i: usize = 0;
    while i < chars.len()
        invariant
            i <= chars@.len(),
            chars@ == path@,
            forall|k: int| 0 <= k < i ==> #[trigger] path@[k] != '\\' && path@[k] != ':',
        decreases chars@.len() - i,
    {
        if chars[i] == '\\' || chars[i] == ':' {
            assert(path@.contains(path@[i as int]));
            return false;
        }
        i += 1;
    }
    after_prefix(path, "//").is_none()
}

/// The last part of a path, if it has one that is a name, on a machine that puts
/// `separator` between parts.
pub fn file_name(path: &str, separator: char) -> (name: Option<String>)
    ensures
        may_be_last(path@, separator, opt_text(name)),
{
    if separator == '/' || is_portable(path) {
        name_after_slashes(path)
    } else {
        machine_file_name(path)
    }
}

/// The last part of a path that is taken apart at its slashes.
fn name_after_slashes(path: &str) -> (name: Option<String>)
    ensures
        opt_text(name) == last_part(path@),
    decreases path@.len(),
{
    let chars = chars_of(path);
    let len = chars.len();
    let mut start: usize = len;
    assert(path@.take(len as int) =~= path@);
    while start > 0 && chars[start - 1] != '/'
        invariant
            start <= len,
            len == chars@.len(),
            chars@ == path@,
            last_slash(path@) == last_slash(path@.take(start as int)),
        decreases start,
    {
        assert(path@.take(start as int).drop_last() =~= path@.take(start - 1));
        start -= 1;
    }
    let part = text_between(&chars, start, len);
    proof {
        lemma_last_slash(path@);
        assert(path@.take(start as int).len() == start);
        assert(last_slash(path@) == start - 1);
        assert(part@ =~= path@.skip(start as int));
    }
    if part.as_str().is_empty() || *part.as_str() == *"." {
        if start > 0 {
            let front = text_between(&chars, 0, start - 1);
            assert(front@ =~= path@.take(start - 1));
            name_after_slashes(front.as_str())
        } else {
            None
        }
    } else if *part.as_str() == *".." {
        None
    } else {
        Some(part)
    }
}

/// The name of a tool server that is started by a command with this last part.
pub open spec fn server_name_of(command: Seq<char>, last: Option<Seq<char>>) -> Seq<char> {
    match last {
        Some(name) => name,
        None => command,
    }
}

/// The options of a command that settings give too.
#[derive(Debug)]
pub struct Flags {
    pub db: Option<String>,
    pub policy: Option<String>,
    pub metrics_port: Option<u16>,
    pub dashboard_port: Option<u16>,
}

/// The given value where there is one, else the other.
pub open spec fn over<T>(given: Option<T>, other: Option<T>) -> Option<T> {
    if given is Some {
        given
    } else {
        other
    }
}

/// The settings with the options of a command in place of what they say.
pub fn apply_flags(config: AgentGateConfig, flags: Flags) -> (c: AgentGateConfig)
    ensures
        c.db_path@ == (match opt_text(flags.db) {
            Some(p) => p,
            None => config.db_path@,
        }),
        opt_text(c.policy_path) == over(opt_text(flags.policy), opt_text(config.policy_path)),
        c.metrics_port == over(flags.metrics_port, config.metrics_port),
        c.dashboard_port == over(flags.dashboard_port, config.dashboard_port),
        c.log_level == config.log_level,
        c.log_format == config.log_format,
        c.server_name == config.server_name,
        c.rate_limits == config.rate_limits,
        c.circuit_breaker == config.circuit_breaker,
        c.servers == config.servers,
{
    let mut c = config;
    if let Some(db) = flags.db {
        c.db_path = db;
    }
    if flags.policy.is_some() {
        c.policy_path = flags.policy;
    }
    if flags.metrics_port.is_some() {
        c.metrics_port = flags.metrics_port;
    }
    if flags.dashboard_port.is_some() {
        c.dashboard_port = flags.dashboard_port;
    }
    c
}

/// A command to start: the program, its arguments, and the name of the tool
/// server that it is.
#[derive(Debug)]
pub struct ServerCommand {
    pub program: String,
    pub args: Vec<String>,
    pub server_name: String,
}

/// The command that the words of a command line make.
pub fn server_command(words: &Vec<String>, separator: char) -> (r: Result<ServerCommand, CliError>)
    ensures
        match r {
            Ok(c) => {
                &&& words@.len() > 0
                &&& c.program@ == words@[0]@
                &&& text_views(c.args@) == text_views(words@).skip(1)
                &&& exists|last: Option<Seq<char>>|
                    may_be_last(words@[0]@, separator, last) && c.server_name@
                        == #[trigger] server_name_of(words@[0]@, last)
            },
            Err(e) => words@.len() == 0 && e@ == CliFault::NoCommand,
        },
{
    if words.len() == 0 {
        return Err(CliError::NoCommand);
    }
    let program = words[0].clone();
    let mut args: Vec<String> = Vec::new();
    let mut i: usize = 1;
    assert(text_views(args@) =~= text_views(words@).subrange(1, 1));
    while i < words.len()
        invariant
            1 <= i <= words@.len(),
            text_views(args@) == text_views(words@).subrange(1, i as int),
        decreases words@.len() - i,
    {
        let ghost done = args@;
        args.push(words[i].clone());
        proof {
            assert(text_views(args@) =~= text_views(done).push(words@[i as int]@));
            assert(text_views(words@).subrange(1, i + 1) =~= text_views(words@).subrange(
                1,
                i as int,
            ).push(words@[i as int]@));
        }
        i += 1;
    }
    assert(text_views(words@).subrange(1, i as int) =~= text_views(words@).skip(1));
    let last = file_name(program.as_str(), separator);
    let ghost said = opt_text(last);
    let server_name = match last {
        Some(name) => name,
        None => program.clone(),
    };
    assert(server_name@ == server_name_of(words@[0]@, said));
    Ok(ServerCommand { program, args, server_name })
}

/// Where the settings are read from: the file that is named, else the one in the
/// gateway's own directory.
pub fn config_path(explicit: Option<&str>, home: Option<&str>, separator: char) -> (path: String)
    ensures
        path@ == (match opt_str(explicit) {
            Some(p) => p,
            None => path_in(own_dir(opt_str(home), separator), "config.toml"@, separator),
        }),
{
    match explicit {
        Some(p) => p.to_owned(),
        None => join_path(agentgate_dir(home, separator).as_str(), "config.toml", separator),
    }
}

/// A row of the table of invocations.
#[derive(Debug)]
pub struct TableRow {
    pub timestamp: String,
    pub server_name: String,
    pub tool_name: String,
    pub status: String,
    pub latency_ms: String,
    pub policy_hit: String,
}

/// The row of the table for a record.
pub fn table_row(r: &InvocationRecord) -> (row: TableRow)
    ensures
        row.timestamp@ == time_text(r@.timestamp, table_format()),
        row.server_name@ == r@.server_name,
        row.tool_name@ == r@.tool_name,
        row.status@ == status_name(r@.status),
        row.latency_ms@ == (match r@.latency_ms {
            Some(ms) => signed_decimal(ms as int),
            None => "-"@,
        }),
        row.policy_hit@ == (match r@.policy_hit {
            Some(rule) => rule,
            None => "-"@,
        }),
{
    TableRow {
        timestamp: r.timestamp.table_text(),
        server_name: r.server_name.clone(),
        tool_name: r.tool_name.clone(),
        status: r.status.as_str().to_owned(),
        latency_ms: match r.latency_ms {
            Some(ms) => signed_decimal_text(ms),
            None => "-".to_owned(),
        },
        policy_hit: match &r.policy_hit {
            Some(rule) => rule.clone(),
            None => "-".to_owned(),
        },
    }
}

/// What is printed of a file that is made unless it is there already.
pub fn init_line(exists: bool, path: &str) -> (line: String)
    ensures
        line@ == (if exists {
            "  exists  "@
        } else {
            "  created "@
        }) + path@,
{
    if exists {
        joined("  exists  ", path)
    } else {
        joined("  created ", path)
    }
}

/// What was found of the policy file.
#[derive(Debug)]
pub struct PolicyFinding {
    pub path: String,
    pub exists: bool,
    pub valid: bool,
}

/// What was found of an installation.
#[derive(Debug)]
pub struct Findings {
    pub dir: String,
    /// The directory is there and can be written to.
    pub dir_ok: bool,
    pub config_path: String,
    pub config_exists: bool,
    pub config_valid: bool,
    pub db_path: String,
    pub db_writable: bool,
    pub dashboard_port: u16,
    pub port_available: bool,
    /// Absent where no policy file is configured.
    pub policy: Option<PolicyFinding>,
}

/// All is well with an installation. A port that is taken is no fault: it may be
/// the gateway that has it.
pub open spec fn all_well(f: Findings) -> bool {
    &&& f.dir_ok
    &&& f.config_exists
    &&& f.config_valid
    &&& f.db_writable
    &&& f.policy matches Some(p) ==> p.exists && p.valid
}

/// A line about a check.
pub open spec fn check_text(ok: bool, text: Seq<char>) -> Seq<char> {
    (if ok {
        "  [ok]  "@
    } else {
        "  [!!]  "@
    }) + text
}

/// The lines about the checks of an installation.
pub open spec fn check_lines(f: Findings) -> Seq<Seq<char>> {
    seq![
        check_text(f.dir_ok, "Config directory: "@ + f.dir@),
        if f.config_exists {
            check_text(f.config_valid, "config.toml is valid TOML: "@ + f.config_path@)
        } else {
            check_text(false, "config.toml not found (run `agentgate init`): "@ + f.config_path@)
        },
        check_text(f.db_writable, "DB path is writable: "@ + f.db_path@),
        check_text(
            f.port_available,
            "Dashboard port "@ + decimal(f.dashboard_port as nat)
                + " is available (or already in use by AgentGate)"@,
        ),
    ] + (match f.policy {
        Some(p) => seq![
            if p.exists {
                check_text(p.valid, "Policy file is valid: "@ + p.path@)
            } else {
                check_text(false, "Policy file not found: "@ + p.path@)
            },
        ],
        None => Seq::empty(),
    })
}

/// A line about a check.
fn check_line(ok: bool, text: &str) -> (line: String)
    ensures
        line@ == check_text(ok, text@),
{
    if ok {
        joined("  [ok]  ", text)
    } else {
        joined("  [!!]  ", text)
    }
}

/// What is said of an installation.
#[derive(Debug)]
pub struct DoctorReport {
    pub lines: Vec<String>,
    pub passed: bool,
}

/// Judges an installation by what was found.
pub fn doctor(f: &Findings) -> (r: DoctorReport)
    ensures
        text_views(r.lines@) == check_lines(*f),
        r.passed == all_well(*f),
{
    let mut lines: Vec<String> = Vec::new();
    lines.push(check_line(f.dir_ok, joined("Config directory: ", f.dir.as_str()).as_str()));
    if f.config_exists {
        lines.push(
            check_line(
                f.config_valid,
                joined("config.toml is valid TOML: ", f.config_path.as_str()).as_str(),
            ),
        );
    } else {
        lines.push(
            check_line(
                false,
                joined(
                    "config.toml not found (run `agentgate init`): ",
                    f.config_path.as_str(),
                ).as_str(),
            ),
        );
    }
    lines.push(
        check_line(f.db_writable, joined("DB path is writable: ", f.db_path.as_str()).as_str()),
    );
    let mut port = joined("Dashboard port ", decimal_text(f.dashboard_port as u64).as_str());
    port.append(" is available (or already in use by AgentGate)");
    lines.push(check_line(f.port_available, port.as_str()));
    let mut policy_ok = true;
    if let Some(p) = &f.policy {
        policy_ok = p.exists && p.valid;
        if p.exists {
            lines.push(
                check_line(p.valid, joined("Policy file is valid: ", p.path.as_str()).as_str()),
            );
        } else {
            lines.push(
                check_line(false, joined("Policy file not found: ", p.path.as_str()).as_str()),
            );
        }
    }
    assert(text_views(lines@) =~= check_lines(*f));
    let passed = f.dir_ok && f.config_exists && f.config_valid && f.db_writable && policy_ok;
    DoctorReport { lines, passed }
}

proof fn lemma_colon_found(s: Seq<char>, i: int, end: int)
    requires
        0 <= i <= end <= s.len(),
        end < s.len() ==> s[end] == ':',
        forall|k: int| i <= k < end ==> #[trigger] s[k] != ':',
    ensures
        colon_at(s, i) == end,
    decreases end - i,
{
    if i < end {
        lemma_colon_found(s, i + 1, end);
    }
}

/// A header is its name, a colon, a blank and its value: `Key: Value` is read as the
/// name before the first colon and the value after it, the blank between them dropped.
/// A text without a colon is no header.
#[verifier::rlimit(40)]
pub proof fn law_headers_are_name_and_value(name: Seq<char>, value: Seq<char>, other: Seq<char>)
    requires
        name.len() > 0,
        value.len() > 0,
        !name.contains(':'),
        !white(name[0]),
        !white(name.last()),
        !white(value[0]),
        !white(value.last()),
        !other.contains(':'),
    ensures
        header_of(name + ": "@ + value) == Some((name, value)),
        header_of(name + ":"@ + value) == Some((name, value)),
        header_of(other) is None,
{
    reveal_strlit(": ");
    reveal_strlit(":");
    let spaced = name + ": "@ + value;
    let tight = name + ":"@ + value;
    let end = name.len() as int;
    assert forall|k: int| 0 <= k < end implies #[trigger] spaced[k] != ':' && #[trigger] tight[k]
        != ':' by {
        assert(spaced[k] == name[k] && tight[k] == name[k]);
        assert(name.contains(name[k]));
    }
    assert forall|k: int| 0 <= k < end implies #[trigger] tight[k] != ':' by {
        assert(tight[k] == name[k]);
        assert(name.contains(name[k]));
    }
    assert forall|k: int| 0 <= k < end implies #[trigger] spaced[k] != ':' by {
        assert(spaced[k] == name[k]);
        assert(name.contains(name[k]));
    }
    lemma_colon_found(spaced, 0, end);
    lemma_colon_found(tight, 0, end);
    assert(spaced.take(end) =~= name && tight.take(end) =~= name);
    assert(spaced.skip(end + 1) =~= seq![' '] + value);
    assert(tight.skip(end + 1) =~= value);
    assert(trimmed(name) == name);
    assert(trimmed(value) == value);
    let padded = seq![' '] + value;
    assert(white(' '));
    assert(padded[0] == ' ');
    assert(padded.skip(1) =~= value);
    assert(without_leading_white(padded) == without_leading_white(value));
    assert forall|k: int| 0 <= k < other.len() implies #[trigger] other[k] != ':' by {
        assert(other.contains(other[k]));
    }
    lemma_colon_found(other, 0, other.len() as int);
}

/// White space around a text is dropped, and nothing else: what is left stands in the
/// text, and neither begins nor ends with white space.
pub proof fn law_trimming_drops_white_space_alone(s: Seq<char>)
    ensures
        ({
            let left = trimmed(s);
            exists|from: int| #![trigger s.subrange(from, from + left.len())]
                0 <= from && from + left.len() <= s.len() && left == s.subrange(
                    from,
                    from + left.len(),
                ) && (forall|i: int| 0 <= i < from ==> white(#[trigger] s[i])) && (forall|i: int|
                    from + left.len() <= i < s.len() ==> white(#[trigger] s[i]))
        }),
        trimmed(s).len() > 0 ==> !white(trimmed(s)[0]) && !white(trimmed(s).last()),
        white(' ') && white('\t') && white('\n') && white('\r') && !white('a') && !white(':'),
{
    lemma_leading(s);
    let a = without_leading_white(s);
    let from = s.len() - a.len();
    lemma_trailing(a);
    let left = trimmed(s);
    assert(left =~= s.subrange(from, from + left.len()));
    assert forall|i: int| from + left.len() <= i < s.len() implies white(#[trigger] s[i]) by {
        assert(a[i - from] == s[i]);
    }
    if left.len() > 0 {
        assert(left[0] == a[0]);
    }
}

proof fn lemma_leading(s: Seq<char>)
    ensures
        ({
            let left = without_leading_white(s);
            &&& left.len() <= s.len()
            &&& left == s.skip(s.len() - left.len())
            &&& left.len() > 0 ==> !white(left[0])
            &&& forall|i: int| 0 <= i < s.len() - left.len() ==> white(#[trigger] s[i])
        }),
    decreases s.len(),
{
    if s.len() > 0 && white(s[0]) {
        let rest = s.skip(1);
        lemma_leading(rest);
        let left = without_leading_white(s);
        assert(left =~= s.skip(s.len() - left.len()));
        assert forall|i: int| 0 <= i < s.len() - left.len() implies white(#[trigger] s[i]) by {
            if i > 0 {
                assert(rest[i - 1] == s[i]);
            }
        }
    } else {
        assert(s.skip(0) =~= s);
    }
}

proof fn lemma_trailing(s: Seq<char>)
    ensures
        ({
            let left = without_trailing_white(s);
            &&& left.len() <= s.len()
            &&& left == s.take(left.len() as int)
            &&& left.len() > 0 ==> !white(left.last())
            &&& forall|i: int| left.len() <= i < s.len() ==> white(#[trigger] s[i])
        }),
    decreases s.len(),
{
    if s.len() > 0 && white(s.last()) {
        let front = s.drop_last();
        lemma_trailing(front);
        let left = without_trailing_white(s);
        assert(left =~= s.take(left.len() as int));
        assert forall|i: int| left.len() <= i < s.len() implies white(#[trigger] s[i]) by {
            if i < front.len() {
                assert(front[i] == s[i]);
            }
        }
    } else {
        assert(s.take(s.len() as int) =~= s);
    }
}

/// Headers are read one after the other: one more text sets its header, or is what is
/// wrong if it is none and all before it were headers.
pub proof fn law_headers_are_read_in_turn(texts: Seq<Seq<char>>, next: Seq<char>)
    ensures
        headers_of(Seq::empty()) == Ok::<Seq<(Seq<char>, Seq<char>)>, CliFault>(Seq::empty()),
        headers_of(texts) matches Err(fault) ==> headers_of(texts.push(next)) == Err::<
            Seq<(Seq<char>, Seq<char>)>,
            CliFault,
        >(fault),
        headers_of(texts) matches Ok(front) ==> match header_of(next) {
            Some(h) => headers_of(texts.push(next)) == Ok::<Seq<(Seq<char>, Seq<char>)>, CliFault>(
                with_header(front, h.0, h.1),
            ),
            None => headers_of(texts.push(next)) == Err::<Seq<(Seq<char>, Seq<char>)>, CliFault>(
                CliFault::InvalidHeader { header: next },
            ),
        },
{
    assert(texts.push(next).drop_last() =~= texts);
}

proof fn lemma_slash_at(dir: Seq<char>, name: Seq<char>)
    requires
        !name.contains('/'),
    ensures
        last_slash(dir + seq!['/'] + name) == dir.len(),
        last_slash(name) == -1,
    decreases name.len(),
{
    let s = dir + seq!['/'] + name;
    if name.len() == 0 {
        assert(s.last() == '/');
    } else {
        assert(s.last() == name.last());
        assert(name.contains(name.last()));
        let shorter = name.drop_last();
        assert(s.drop_last() =~= dir + seq!['/'] + shorter);
        assert(!shorter.contains('/')) by {
            assert forall|i: int| 0 <= i < shorter.len() implies #[trigger] shorter[i] != '/' by {
                assert(shorter[i] == name[i]);
                assert(name.contains(name[i]));
            }
        }
        lemma_slash_at(dir, shorter);
    }
}

/// The last part of a path is what stands after its last slash, a slash at the end or a
/// part that is a dot alone passed over.
#[verifier::rlimit(40)]
pub proof fn law_last_part_follows_the_last_slash(dir: Seq<char>, name: Seq<char>)
    requires
        name.len() > 0,
        !name.contains('/'),
        name != "."@,
        name != ".."@,
    ensures
        last_part(dir + seq!['/'] + name) == Some(name),
        last_part(name) == Some(name),
        last_part(dir + seq!['/']) == last_part(dir),
        last_part(dir + seq!['/'] + "."@) == last_part(dir),
        last_part(dir + seq!['/'] + ".."@) is None,
        last_part(Seq::empty()) is None,
{
    reveal_strlit(".");
    reveal_strlit("..");
    lemma_slash_at(dir, name);
    let s = dir + seq!['/'] + name;
    assert(s.skip(dir.len() as int + 1) =~= name);
    assert(name.skip(0) =~= name);
    let none = Seq::<char>::empty();
    lemma_slash_at(dir, none);
    let d = dir + seq!['/'];
    assert(d =~= dir + seq!['/'] + none);
    assert(d.skip(dir.len() as int + 1) =~= none);
    assert(d.take(dir.len() as int) =~= dir);
    lemma_slash_at(dir, "."@);
    let dot = dir + seq!['/'] + "."@;
    assert(dot.skip(dir.len() as int + 1) =~= "."@);
    assert(dot.take(dir.len() as int) =~= dir);
    lemma_slash_at(dir, ".."@);
    let dots = dir + seq!['/'] + ".."@;
    assert(dots.skip(dir.len() as int + 1) =~= ".."@);
    assert(".."@.len() == 2 && "."@.len() == 1);
    assert(none.skip(0) =~= none);
}

/// A tool server goes by the last part of the command that starts it, or by the whole
/// command where that has none; an option of a command counts before what the settings
/// say.
pub proof fn law_names_and_options(command: Seq<char>, name: Seq<char>, a: u16, b: Option<u16>)
    ensures
        server_name_of(command, Some(name)) == name,
        server_name_of(command, None) == command,
        over(Some(a), b) == Some(a),
        over(None, b) == b,
{
}

/// A line says that its check went well.
pub open spec fn says_ok(line: Seq<char>) -> bool {
    "  [ok]  "@.is_prefix_of(line)
}

proof fn lemma_check_text(ok: bool, text: Seq<char>)
    ensures
        says_ok(check_text(ok, text)) == ok,
{
    reveal_strlit("  [ok]  ");
    reveal_strlit("  [!!]  ");
    let line = check_text(ok, text);
    if ok {
        assert("  [ok]  "@ =~= line.take(8));
    } else {
        assert(line[3] == '!' && "  [ok]  "@[3] == 'o');
    }
}

/// An installation passes if and only if every line about it says that its check went
/// well, that about the port of the dashboard left out; each line says so if and only
/// if what it is about was found well.
#[verifier::rlimit(40)]
pub proof fn law_installation_passes_if_every_check_does(f: Findings)
    ensures
        ({
            let lines = check_lines(f);
            &&& lines.len() == if f.policy is Some {
                5nat
            } else {
                4nat
            }
            &&& says_ok(lines[0]) <==> f.dir_ok
            &&& says_ok(lines[1]) <==> f.config_exists && f.config_valid
            &&& says_ok(lines[2]) <==> f.db_writable
            &&& says_ok(lines[3]) <==> f.port_available
            &&& f.policy matches Some(p) ==> (says_ok(lines[4]) <==> p.exists && p.valid)
            &&& all_well(f) <==> says_ok(lines[0]) && says_ok(lines[1]) && says_ok(lines[2]) && (
            f.policy is Some ==> says_ok(lines[4]))
        }),
{
    lemma_check_text(f.dir_ok, "Config directory: "@ + f.dir@);
    lemma_check_text(f.config_valid, "config.toml is valid TOML: "@ + f.config_path@);
    lemma_check_text(
        false,
        "config.toml not found (run `agentgate init`): "@ + f.config_path@,
    );
    lemma_check_text(f.db_writable, "DB path is writable: "@ + f.db_path@);
    lemma_check_text(
        f.port_available,
        "Dashboard port "@ + decimal(f.dashboard_port as nat)
            + " is available (or already in use by AgentGate)"@,
    );
    if let Some(p) = f.policy {
        lemma_check_text(p.valid, "Policy file is valid: "@ + p.path@);
        lemma_check_text(false, "Policy file not found: "@ + p.path@);
    }
}

/// The user is told what is wrong, and of what they wrote.
pub proof fn law_errors_say_what_was_written(written: Seq<char>)
    ensures
        told(CliFault::UnknownTransport { name: written }) == "Unknown transport '"@ + written
            + "'. Valid values: sse, http"@,
        told(CliFault::InvalidHeader { header: written }) == "Invalid header '"@ + written
            + "'. Use Key: Value format"@,
        told(CliFault::StdioTransport) == "Use `agentgate wrap` for stdio transport"@,
        told(CliFault::NoCommand)
            == "error: no command specified. Usage: agentgate wrap -- <cmd> [args...]"@,
{
}

} // verus!
