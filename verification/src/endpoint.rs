//! Reading a human-friendly DevTools endpoint: a `ws://` URL passes
//! through, an HTTP origin is split into host and port for the
//! `/json/version` lookup, and the lookup's response headers give the body
//! length.
use crate::cdp::CdpError;
use crate::snapshot::{decimal, decimal_chars};
use crate::text::{
    before_any, chars_of, find_char, find_first, find_last, lemma_find_first, lemma_find_last,
    lower_seq, lower_vec, parse_u16, parse_u64, parse_unsigned, prefix_before_any, push_all,
    push_str, rfind_char, seq_eq, slice_of, starts_with, string_of, trim, trim_vec,
};
use vstd::prelude::*;

verus! {

// ---------------------------------------------------------------------------
// Host and port
// ---------------------------------------------------------------------------

/// `endpoint` without a leading `http://` or `https://`.
pub open spec fn without_http_scheme(endpoint: Seq<char>) -> Seq<char> {
    if "http://"@.is_prefix_of(endpoint) {
        endpoint.skip("http://"@.len() as int)
    } else if "https://"@.is_prefix_of(endpoint) {
        endpoint.skip("https://"@.len() as int)
    } else {
        endpoint
    }
}

/// The port used when the endpoint names none: 443 for `https://`, else
/// the DevTools default 9222.
pub open spec fn default_port(endpoint: Seq<char>) -> u16 {
    if "https://"@.is_prefix_of(endpoint) {
        443
    } else {
        9222
    }
}

pub open spec fn invalid_endpoint(endpoint: Seq<char>) -> Seq<char> {
    "invalid endpoint `"@ + endpoint + "`"@
}

pub open spec fn invalid_port(endpoint: Seq<char>) -> Seq<char> {
    "invalid port in endpoint `"@ + endpoint + "`"@
}

/// What `parse_http_authority` gives: the authority is what follows the
/// scheme up to the first `/` or `?`; a bracketed IPv6 host runs to the
/// first `]` and may be followed by `:port`; otherwise the port follows
/// the last `:`. The error's text is `Err`'s payload (a `Connect` error).
pub open spec fn authority_parse(endpoint: Seq<char>) -> Result<(Seq<char>, u16), Seq<char>> {
    let authority = before_any(without_http_scheme(endpoint), "/?"@);
    if authority.len() > 0 && authority[0] == '[' {
        let stripped = authority.drop_first();
        match find_first(stripped, ']') {
            None => Err(invalid_endpoint(endpoint)),
            Some(end) => {
                let after = stripped.skip(end + 1);
                if after.len() > 0 && after[0] == ':' {
                    match parse_unsigned(after.drop_first(), u16::MAX as nat) {
                        Some(p) => Ok((stripped.take(end), p as u16)),
                        None => Err(invalid_port(endpoint)),
                    }
                } else {
                    Ok((stripped.take(end), default_port(endpoint)))
                }
            },
        }
    } else {
        match find_last(authority, ':') {
            Some(i) => match parse_unsigned(authority.skip(i + 1), u16::MAX as nat) {
                Some(p) => Ok((authority.take(i), p as u16)),
                None => Err(invalid_port(endpoint)),
            },
            None => Ok((authority, default_port(endpoint))),
        }
    }
}

fn quoted_error(before: &str, endpoint: &Vec<char>) -> (e: CdpError)
    ensures
        e matches CdpError::Connect(m) && m@ == before@ + endpoint@ + "`"@,
{
    let mut v: Vec<char> = Vec::new();
    push_str(&mut v, before);
    push_all(&mut v, endpoint);
    push_str(&mut v, "`");
    CdpError::Connect(string_of(v))
}

/// Extract `(host, port)` from an HTTP origin (path and scheme ignored).
pub fn parse_http_authority(endpoint: &str) -> (r: Result<(String, u16), CdpError>)
    ensures
        match r {
            Ok(hp) => authority_parse(endpoint@) == Ok::<(Seq<char>, u16), Seq<char>>(
                (hp.0@, hp.1),
            ),
            Err(e) => e matches CdpError::Connect(m) && authority_parse(endpoint@) == Err::<
                (Seq<char>, u16),
                Seq<char>,
            >(m@),
        },
{
    let e = chars_of(endpoint);
    let http = chars_of("http://");
    let https = chars_of("https://");
    let rest = if starts_with(&e, "http://") {
        assert(e@.subrange(http@.len() as int, e@.len() as int) =~= e@.skip(http@.len() as int));
        slice_of(&e, http.len(), e.len())
    } else if starts_with(&e, "https://") {
        assert(e@.subrange(https@.len() as int, e@.len() as int) =~= e@.skip(
            https@.len() as int,
        ));
        slice_of(&e, https.len(), e.len())
    } else {
        assert(e@.subrange(0, e@.len() as int) =~= e@);
        slice_of(&e, 0, e.len())
    };
    let authority = prefix_before_any(&rest, "/?");
    let default: u16 = if starts_with(&e, "https://") {
        443
    } else {
        9222
    };
    if authority.len() > 0 && authority[0] == '[' {
        let stripped = slice_of(&authority, 1, authority.len());
        assert(stripped@ =~= authority@.drop_first());
        match find_char(&stripped, ']') {
            None => Err(quoted_error("invalid endpoint `", &e)),
            Some(end) => {
                proof {
                    lemma_find_first(stripped@, ']');
                }
                let host = slice_of(&stripped, 0, end);
                assert(host@ =~= stripped@.take(end as int));
                let after = slice_of(&stripped, end + 1, stripped.len());
                assert(after@ =~= stripped@.skip(end + 1));
                if after.len() > 0 && after[0] == ':' {
                    let digits = slice_of(&after, 1, after.len());
                    assert(digits@ =~= after@.drop_first());
                    match parse_u16(&digits) {
                        Some(p) => Ok((string_of(host), p)),
                        None => Err(quoted_error("invalid port in endpoint `", &e)),
                    }
                } else {
                    Ok((string_of(host), default))
                }
            },
        }
    } else {
        match rfind_char(&authority, ':') {
            Some(i) => {
                proof {
                    lemma_find_last(authority@, ':');
                }
                let digits = slice_of(&authority, i + 1, authority.len());
                assert(digits@ =~= authority@.skip(i + 1));
                match parse_u16(&digits) {
                    Some(p) => {
                        let host = slice_of(&authority, 0, i);
                        assert(host@ =~= authority@.take(i as int));
                        Ok((string_of(host), p))
                    },
                    None => Err(quoted_error("invalid port in endpoint `", &e)),
                }
            },
            None => Ok((string_of(authority), default)),
        }
    }
}

// ---------------------------------------------------------------------------
// Response headers
// ---------------------------------------------------------------------------

/// `l` without one trailing carriage return.
pub open spec fn strip_cr(l: Seq<char>) -> Seq<char> {
    if l.len() > 0 && l.last() == '\r' {
        l.drop_last()
    } else {
        l
    }
}

/// `str::lines`: the pieces between `\n`s, each without a `\r` right
/// before its `\n`; a final `\n` ends the last line without starting a
/// new one.
pub open spec fn lines_of(s: Seq<char>) -> Seq<Seq<char>>
    decreases s.len(),
{
    if s.len() == 0 {
        Seq::empty()
    } else {
        match find_first(s, '\n') {
            None => seq![s],
            Some(i) => {
                proof {
                    lemma_find_first(s, '\n');
                }
                seq![strip_cr(s.take(i))] + lines_of(s.skip(i + 1))
            },
        }
    }
}

/// The length a `Content-Length: N` header line gives, if the line is one
/// (name compared case-insensitively, both sides trimmed).
pub open spec fn header_length(line: Seq<char>) -> Option<u64> {
    match find_first(line, ':') {
        None => None,
        Some(i) => if lower_seq(trim(line.take(i))) == lower_seq("content-length"@) {
            match parse_unsigned(trim(line.skip(i + 1)), u64::MAX as nat) {
                Some(v) => Some(v as u64),
                None => None,
            }
        } else {
            None
        },
    }
}

/// The first length that one of `lines` gives.
pub open spec fn first_length(lines: Seq<Seq<char>>) -> Option<u64>
    decreases lines.len(),
{
    if lines.len() == 0 {
        None
    } else {
        match header_length(lines[0]) {
            Some(v) => Some(v),
            None => first_length(lines.drop_first()),
        }
    }
}

/// What `parse_content_length` gives: the first header line after the
/// status line that is a `Content-Length` with a decimal value.
pub open spec fn content_length_spec(headers: Seq<char>) -> Option<u64> {
    let lines = lines_of(headers);
    if lines.len() == 0 {
        None
    } else {
        first_length(lines.drop_first())
    }
}

fn header_length_exec(line: &Vec<char>) -> (r: Option<u64>)
    ensures
        r == header_length(line@),
{
    match find_char(line, ':') {
        None => None,
        Some(i) => {
            proof {
                lemma_find_first(line@, ':');
            }
            let name = slice_of(line, 0, i);
            assert(name@ =~= line@.take(i as int));
            let n = line.len();
            let value = slice_of(line, i + 1, n);
            assert(value@ =~= line@.skip(i + 1));
            let key = lower_vec(&chars_of("content-length"));
            if seq_eq(&lower_vec(&trim_vec(&name)), &key) {
                parse_u64(&trim_vec(&value))
            } else {
                None
            }
        },
    }
}

/// The lines of `s`, in order.
fn lines_exec(s: &Vec<char>) -> (r: Vec<Vec<char>>)
    ensures
        r.deep_view() == lines_of(s@),
{
    let mut out: Vec<Vec<char>> = Vec::new();
    let mut pos: usize = 0;
    assert(s@.skip(0) =~= s@);
    while pos < s.len()
        invariant
            pos <= s.len(),
            lines_of(s@) == out.deep_view() + lines_of(s@.skip(pos as int)),
        decreases s.len() - pos,
    {
        let rest = slice_of(s, pos, s.len());
        assert(rest@ =~= s@.skip(pos as int));
        let ghost before = out.deep_view();
        match find_char(&rest, '\n') {
            None => {
                assert(lines_of(rest@) =~= seq![rest@]);
                assert(rest.deep_view() =~= rest@);
                out.push(rest);
                assert(out.deep_view() =~= before.push(rest@));
                assert(s@.skip(s@.len() as int) =~= Seq::<char>::empty());
                assert(lines_of(s@) =~= out.deep_view() + lines_of(s@.skip(s@.len() as int)));
                pos = s.len();
            },
            Some(i) => {
                proof {
                    lemma_find_first(rest@, '\n');
                }
                let mut line = slice_of(&rest, 0, i);
                assert(line@ =~= rest@.take(i as int));
                if line.len() > 0 && line[line.len() - 1] == '\r' {
                    line.pop();
                    assert(line@ =~= rest@.take(i as int).drop_last());
                }
                assert(rest@.skip(i + 1) =~= s@.skip(pos + i + 1));
                assert(line.deep_view() =~= line@);
                let ghost lv = line@;
                out.push(line);
                assert(out.deep_view() =~= before.push(lv));
                assert(lines_of(s@) =~= out.deep_view() + lines_of(s@.skip(pos + i + 1)));
                pos = pos + i + 1;
            },
        }
    }
    assert(lines_of(s@.skip(pos as int)) =~= Seq::<Seq<char>>::empty());
    assert(out.deep_view() + Seq::<Seq<char>>::empty() =~= out.deep_view());
    out
}

/// Extract the `Content-Length` header value (bytes).
pub fn parse_content_length(headers: &str) -> (r: Option<u64>)
    ensures
        r == content_length_spec(headers@),
{
    let lines = lines_exec(&chars_of(headers));
    let ghost lv = lines.deep_view();
    if lines.len() == 0 {
        return None;
    }
    let mut i: usize = 1;
    assert(lv.skip(1) =~= lv.drop_first());
    while i < lines.len()
        invariant
            1 <= i <= lines.len(),
            lv == lines.deep_view(),
            lv == lines_of(headers@),
            first_length(lv.drop_first()) == first_length(lv.skip(i as int)),
        decreases lines.len() - i,
    {
        assert(lv.skip(i as int).drop_first() =~= lv.skip(i + 1));
        assert(lv.skip(i as int)[0] == lines@[i as int]@) by {
            assert(lines@[i as int].deep_view() =~= lines@[i as int]@);
        }
        match header_length_exec(&lines[i]) {
            Some(v) => {
                return Some(v);
            },
            None => {},
        }
        i = i + 1;
    }
    assert(lv.skip(i as int) =~= Seq::<Seq<char>>::empty());
    None
}

// ---------------------------------------------------------------------------
// Resolving an endpoint
// ---------------------------------------------------------------------------

/// What a DevTools endpoint names: a WebSocket URL to connect to as is, or
/// an HTTP origin whose `/json/version` gives the WebSocket URL.
#[derive(Debug, Clone, PartialEq, Eq)]
pub enum EndpointTarget {
    WebSocket(String),
    Http { host: String, port: u16 },
}

/// A `ws://` or `wss://` URL.
pub open spec fn is_ws_url(s: Seq<char>) -> bool {
    "ws://"@.is_prefix_of(s) || "wss://"@.is_prefix_of(s)
}

/// Reads a (trimmed) endpoint: a WebSocket URL passes through; anything
/// else is an HTTP origin split into host and port.
pub fn endpoint_target(endpoint: &str) -> (r: Result<EndpointTarget, CdpError>)
    ensures
        is_ws_url(trim(endpoint@)) ==> (r matches Ok(EndpointTarget::WebSocket(u)) && u@ == trim(endpoint@)),
        !is_ws_url(trim(endpoint@)) ==> match r {
            Ok(EndpointTarget::Http { host, port }) => authority_parse(trim(endpoint@)) == Ok::<
                (Seq<char>, u16),
                Seq<char>,
            >((host@, port)),
            Ok(EndpointTarget::WebSocket(_)) => false,
            Err(e) => e matches CdpError::Connect(m) && authority_parse(trim(endpoint@)) == Err::<
                (Seq<char>, u16),
                Seq<char>,
            >(m@),
        },
{
    let t = trim_vec(&chars_of(endpoint));
    let ws = starts_with(&t, "ws://") || starts_with(&t, "wss://");
    let s = string_of(t);
    if ws {
        return Ok(EndpointTarget::WebSocket(s));
    }
    match parse_http_authority(s.as_str()) {
        Ok((host, port)) => Ok(EndpointTarget::Http { host, port }),
        Err(e) => Err(e),
    }
}

/// The `/json/version` request sent to `host:port`.
pub open spec fn version_request_spec(host: Seq<char>, port: u16) -> Seq<char> {
    "GET /json/version HTTP/1.1\r\nHost: "@ + host + ":"@ + decimal(port as nat)
        + "\r\nConnection: close\r\nUser-Agent: sniffCSS/0.1\r\nAccept: application/json\r\n\r\n"@
}

/// Builds the `/json/version` request for `host:port`.
pub fn version_request(host: &str, port: u16) -> (r: String)
    ensures
        r@ == version_request_spec(host@, port),
{
    let mut v = chars_of("GET /json/version HTTP/1.1\r\nHost: ");
    push_str(&mut v, host);
    push_str(&mut v, ":");
    let d = decimal_chars(port as u64);
    push_all(&mut v, &d);
    push_str(&mut v, "\r\nConnection: close\r\nUser-Agent: sniffCSS/0.1\r\nAccept: application/json\r\n\r\n");
    string_of(v)
}

/// What the failed lookup says when `/json/version` has no
/// `webSocketDebuggerUrl`.
pub const NO_DEBUGGER_URL: &'static str = "no webSocketDebuggerUrl in /json/version (is remote debugging enabled?)";

/// The WebSocket URL a `/json/version` reply gives: its string
/// `webSocketDebuggerUrl` member (`url`), or a connect error when it has
/// none.
pub fn debugger_url(url: Option<String>) -> (r: Result<String, CdpError>)
    ensures
        match url {
            Some(u) => r matches Ok(x) && x@ == u@,
            None => r matches Err(CdpError::Connect(m)) && m@ == NO_DEBUGGER_URL@,
        },
{
    match url {
        Some(u) => Ok(u),
        None => Err(CdpError::Connect(NO_DEBUGGER_URL.to_owned())),
    }
}

} // verus!
