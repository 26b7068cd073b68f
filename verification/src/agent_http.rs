//! The small HTTP/1.0 dialect spoken with the local agent over its Unix
//! socket: the requests sent, the status line and headers read back, the
//! server-sent events of a streamed answer, and the errors of the exchange.
use vstd::prelude::*;
use vstd::string::*;
use crate::chat::ChatError;
use crate::paths::{join_path, path_join};
use crate::text::{
    chars_of, contains, decimal, decimal_string, is_ws, is_ws_char, matches_at, owned, parse_unsigned,
    parse_unsigned_range, same_text, starts_with, str_contains, string_of_range, trim, trim_bounds,
    utf8_len,
};

verus! {

/// `POST <path> HTTP/1.0` with a JSON body and its length in bytes.
pub open spec fn post_request_text(path: Seq<char>, body: Seq<char>) -> Seq<char> {
    "POST "@ + path + " HTTP/1.0\r\nHost: localhost\r\nContent-Type: application/json\r\nContent-Length: "@
        + decimal(utf8_len(body)) + "\r\n\r\n"@ + body
}

/// `GET <path> HTTP/1.0` with no body.
pub open spec fn get_request_text(path: Seq<char>) -> Seq<char> {
    "GET "@ + path + " HTTP/1.0\r\nHost: localhost\r\n\r\n"@
}

/// The request that posts `body` to `path`.
pub fn build_post_request(path: &str, body: &str) -> (r: String)
    requires
        utf8_len(body@) <= usize::MAX,
    ensures
        r@ == post_request_text(path@, body@),
{
    let mut r = owned("POST ");
    r.append(path);
    r.append(" HTTP/1.0\r\nHost: localhost\r\nContent-Type: application/json\r\nContent-Length: ");
    let n = body.len();
    let d = decimal_string(n as u128);
    r.append(d.as_str());
    r.append("\r\n\r\n");
    r.append(body);
    r
}

/// The request that gets `path`.
pub fn build_get_request(path: &str) -> (r: String)
    ensures
        r@ == get_request_text(path@),
{
    let mut r = owned("GET ");
    r.append(path);
    r.append(" HTTP/1.0\r\nHost: localhost\r\n\r\n");
    r
}

/// The whitespace-separated words of `s` when `cur` is the part of a word read before it.
pub open spec fn words_from(s: Seq<char>, cur: Seq<char>) -> Seq<Seq<char>>
    decreases s.len(),
{
    if s.len() == 0 {
        if cur.len() > 0 {
            seq![cur]
        } else {
            seq![]
        }
    } else if is_ws(s[0]) {
        let flushed: Seq<Seq<char>> = if cur.len() > 0 {
            seq![cur]
        } else {
            seq![]
        };
        flushed + words_from(s.drop_first(), seq![])
    } else {
        words_from(s.drop_first(), cur.push(s[0]))
    }
}

/// What `str::split_whitespace` yields: the maximal runs of non-whitespace.
pub open spec fn words(s: Seq<char>) -> Seq<Seq<char>> {
    words_from(s, seq![])
}

/// Splits a line at its whitespace.
pub fn split_words(s: &str) -> (r: Vec<String>)
    ensures
        r@.map_values(|t: String| t@) == words(s@),
{
    let v = chars_of(s);
    let mut out: Vec<String> = Vec::new();
    let mut start: usize = 0;
    let mut i: usize = 0;
    assert(v@.skip(0) == v@);
    assert(v@.subrange(0, 0) == Seq::<char>::empty());
    while i < v.len()
        invariant
            start <= i <= v.len(),
            v@ == s@,
            out@.map_values(|t: String| t@) + words_from(v@.skip(i as int), v@.subrange(start as int, i as int))
                == words(s@),
        decreases v.len() - i,
    {
        let ghost rest = v@.skip(i as int);
        let ghost cur = v@.subrange(start as int, i as int);
        assert(rest[0] == v@[i as int]);
        assert(rest.drop_first() == v@.skip(i + 1));
        if is_ws_char(v[i]) {
            let ghost before = out@.map_values(|t: String| t@);
            if start < i {
                let w = string_of_range(&v, start, i);
                out.push(w);
            }
            assert(out@.map_values(|t: String| t@) == before + (if cur.len() > 0 {
                seq![cur]
            } else {
                Seq::<Seq<char>>::empty()
            }));
            assert(v@.subrange(i + 1, i + 1) == Seq::<char>::empty());
            start = i + 1;
        } else {
            assert(cur.push(v@[i as int]) == v@.subrange(start as int, i + 1));
        }
        i = i + 1;
    }
    let ghost before = out@.map_values(|t: String| t@);
    let ghost cur = v@.subrange(start as int, v.len() as int);
    if start < v.len() {
        let w = string_of_range(&v, start, v.len());
        out.push(w);
    }
    assert(v@.skip(v.len() as int) == Seq::<char>::empty());
    assert(out@.map_values(|t: String| t@) == before + (if cur.len() > 0 {
        seq![cur]
    } else {
        Seq::<Seq<char>>::empty()
    }));
    out
}

/// The status a response line sets, given the status known before it: a line
/// that starts with `HTTP/` and has a second word sets the number that word is,
/// or 500 when it is no number a `u16` holds; any other line leaves the status.
pub open spec fn status_after(current: nat, line: Seq<char>) -> nat {
    if starts_with(line, "HTTP/"@) && words(line).len() >= 2 {
        match parse_unsigned(words(line)[1], u16::MAX as nat) {
            Some(n) => n,
            None => 500,
        }
    } else {
        current
    }
}

/// Reads the status of a response from one of its header lines.
pub fn status_after_line(current: u16, line: &str) -> (r: u16)
    ensures
        r as nat == status_after(current as nat, line@),
{
    let v = chars_of(line);
    let p = chars_of("HTTP/");
    proof {
        reveal_strlit("HTTP/");
    }
    if p.len() > v.len() || !matches_at(&v, 0, &p) {
        proof {
            if starts_with(line@, "HTTP/"@) {
                assert(v@.take(5) == v@.subrange(0, 5));
            }
        }
        return current;
    }
    assert(v@.subrange(0, 5) == v@.take(5));
    let ws = split_words(line);
    if ws.len() < 2 {
        return current;
    }
    let w = chars_of(ws[1].as_str());
    assert(w@ == words(line@)[1]);
    assert(w@.subrange(0, w@.len() as int) == w@);
    match parse_unsigned_range(&w, 0, w.len(), u16::MAX as u128) {
        Some(n) => n as u16,
        None => 500,
    }
}

/// The blank line that ends the headers.
pub open spec fn header_end(line: Seq<char>) -> bool {
    line == "\r\n"@ || line == "\n"@
}

pub fn is_header_end(line: &str) -> (r: bool)
    ensures
        r == header_end(line@),
{
    same_text(line, "\r\n") || same_text(line, "\n")
}

/// A status in the 2xx range.
pub fn is_success_status(status: u16) -> (r: bool)
    ensures
        r == (200 <= status && status < 300),
{
    200 <= status && status < 300
}

/// The payload of a server-sent event line: the line trimmed must start with
/// `data:`; what follows, trimmed, is the payload, unless it is `[DONE]`.
pub open spec fn event_payload(line: Seq<char>) -> Option<Seq<char>> {
    let t = trim(line);
    if starts_with(t, "data:"@) {
        let p = trim(t.skip(5));
        if p == "[DONE]"@ {
            None
        } else {
            Some(p)
        }
    } else {
        None
    }
}

/// The JSON payload of a stream line, if it carries one.
pub fn sse_payload(line: &str) -> (r: Option<String>)
    ensures
        match r {
            Some(p) => event_payload(line@) == Some(p@),
            None => event_payload(line@) is None,
        },
{
    let v = chars_of(line);
    assert(v@.subrange(0, v@.len() as int) == v@);
    let (a, b) = trim_bounds(&v, 0, v.len());
    let ghost t = v@.subrange(a as int, b as int);
    let key = chars_of("data:");
    proof {
        reveal_strlit("data:");
    }
    if b - a < 5 || !matches_at(&v, a, &key) {
        proof {
            if starts_with(t, "data:"@) {
                assert(t.take(5) == v@.subrange(a as int, a + 5));
            }
        }
        return None;
    }
    assert(t.take(5) == v@.subrange(a as int, a + 5));
    assert(t.skip(5) == v@.subrange(a + 5, b as int));
    let (c, d) = trim_bounds(&v, a + 5, b);
    let p = string_of_range(&v, c, d);
    if same_text(p.as_str(), "[DONE]") {
        None
    } else {
        Some(p)
    }
}

/// The agent answered with a status outside 2xx.
pub fn http_error(status: u16, body: &str) -> (r: ChatError)
    ensures
        r matches ChatError::Provider { code, message, retryable, http_status } && code@
            == "AGENT_HTTP_ERROR"@ && message@ == "Agent returned HTTP "@ + decimal(status as nat) + ": "@
            + body@ && retryable && http_status == Some(status),
{
    let mut m = owned("Agent returned HTTP ");
    let d = decimal_string(status as u128);
    m.append(d.as_str());
    m.append(": ");
    m.append(body);
    ChatError::Provider { code: owned("AGENT_HTTP_ERROR"), message: m, retryable: true, http_status: Some(status) }
}

fn provider_error(code: &str, lead: &str, detail: &str, retryable: bool) -> (r: ChatError)
    ensures
        r matches ChatError::Provider { code: c, message, retryable: rt, http_status } && c@ == code@
            && message@ == lead@ + detail@ && rt == retryable && http_status is None,
{
    let mut m = owned(lead);
    m.append(detail);
    ChatError::Provider { code: owned(code), message: m, retryable, http_status: None }
}

/// The agent's socket could not be reached; `detail` is the system's text.
pub fn agent_unreachable(detail: &str) -> (r: ChatError)
    ensures
        r matches ChatError::Provider { code, message, retryable, http_status } && code@
            == "AGENT_UNREACHABLE"@ && message@ == "failed to connect to python agent: "@ + detail@
            && retryable && http_status is None,
{
    provider_error("AGENT_UNREACHABLE", "failed to connect to python agent: ", detail, true)
}

/// The request could not be written to the agent; `detail` is the system's text.
pub fn agent_write_failed(detail: &str) -> (r: ChatError)
    ensures
        r matches ChatError::Provider { code, message, retryable, http_status } && code@
            == "AGENT_WRITE_FAILED"@ && message@ == "failed to write to python agent: "@ + detail@
            && retryable && http_status is None,
{
    provider_error("AGENT_WRITE_FAILED", "failed to write to python agent: ", detail, true)
}

/// The agent's answer is not the JSON expected; `detail` is the parser's text.
pub fn agent_bad_response(detail: &str) -> (r: ChatError)
    ensures
        r matches ChatError::Provider { code, message, retryable, http_status } && code@
            == "PROVIDER_BAD_REQUEST"@ && message@ == "failed to parse agent response: "@ + detail@
            && !retryable && http_status is None,
{
    provider_error("PROVIDER_BAD_REQUEST", "failed to parse agent response: ", detail, false)
}

/// The request could not be put into JSON; `detail` is the serializer's text.
pub fn serialize_failed(detail: &str) -> (r: ChatError)
    ensures
        r matches ChatError::Provider { code, message, retryable, http_status } && code@
            == "INTERNAL_ERROR"@ && message@ == "serialize failed: "@ + detail@ && !retryable
            && http_status is None,
{
    provider_error("INTERNAL_ERROR", "serialize failed: ", detail, false)
}

/// The agent is healthy when its answer to `GET /health` says `200 OK`.
pub fn health_response_ok(response: &str) -> (r: bool)
    ensures
        r == contains(response@, "200 OK"@),
{
    str_contains(response, "200 OK")
}

/// The request that asks the agent whether it is healthy.
pub fn health_request() -> (r: String)
    ensures
        r@ == get_request_text("/health"@),
{
    build_get_request("/health")
}

/// `<runtime_root>/run/agent.sock`
pub open spec fn spec_agent_socket(runtime_root: Seq<char>) -> Seq<char> {
    path_join(path_join(runtime_root, "run"@), "agent.sock"@)
}

/// The socket the agent of a runtime directory listens on.
pub fn agent_socket_path(runtime_root: &str) -> (r: String)
    ensures
        r@ == spec_agent_socket(runtime_root@),
{
    let d = join_path(runtime_root, "run");
    join_path(d.as_str(), "agent.sock")
}

/// The reply's status is `ok`.
pub open spec fn status_is_ok(status: Option<&str>) -> bool {
    match status {
        Some(s) => s@ == "ok"@,
        None => false,
    }
}

/// What a test of an MCP connector comes to, from the `status` and `error`
/// fields of the agent's reply: passed when the status is `ok`; otherwise failed
/// with the reply's error, or `Unknown error` when it gives none.
pub fn mcp_test_outcome(status: Option<&str>, error: Option<&str>) -> (r: Result<(), String>)
    ensures
        if status_is_ok(status) {
            r is Ok
        } else {
            r matches Err(m) && m@ == match error {
                Some(e) => e@,
                None => "Unknown error"@,
            }
        },
{
    if let Some(s) = status {
        if same_text(s, "ok") {
            return Ok(());
        }
    }
    match error {
        Some(e) => Err(owned(e)),
        None => Err(owned("Unknown error")),
    }
}

} // verus!
