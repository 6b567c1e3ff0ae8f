//! Error types of the DevTools transport layers and the browser launch
//! options.
use crate::text::{chars_of, eq_str, push_str, string_of, trim, trim_vec};
use vstd::prelude::*;

verus! {

#[verifier::external_type_specification]
#[verifier::external_body]
pub struct ExIoError(std::io::Error);

/// Error type for the JSON-RPC transport layer.
#[derive(Debug)]
pub enum JsonRpcError {
    Connect(String),
    Transport(String),
    Protocol { method: String, message: String },
    Timeout(String),
    Closed,
    Io(std::io::Error),
}

/// Error type for the CDP client layer.
#[derive(Debug)]
pub enum CdpError {
    Connect(String),
    Transport(String),
    Protocol { method: String, message: String },
    Timeout(String),
    Closed,
    Io(std::io::Error),
}

/// The text of `std::io::Error`'s `Display` for `e`. Nothing is promised
/// of it: it depends on the operating system's messages.
#[verifier::external_body]
pub(crate) fn io_error_text(e: &std::io::Error) -> String {
    e.to_string()
}

/// The human-readable text of a transport error whose cause is not an
/// operating-system error (what its `Display` shows).
pub open spec fn json_rpc_error_text(e: JsonRpcError) -> Seq<char> {
    match e {
        JsonRpcError::Connect(m) => "websocket connect failed: "@ + m@,
        JsonRpcError::Transport(m) => "websocket transport: "@ + m@,
        JsonRpcError::Protocol { method, message } => "protocol returned error for `"@ + method@
            + "`: "@ + message@,
        JsonRpcError::Timeout(m) => "timed out waiting for `"@ + m@ + "`"@,
        JsonRpcError::Closed => "connection closed"@,
        JsonRpcError::Io(_) => Seq::empty(),
    }
}

/// The human-readable text of a CDP error whose cause is not an
/// operating-system error (what its `Display` shows).
pub open spec fn cdp_error_text(e: CdpError) -> Seq<char> {
    match e {
        CdpError::Connect(m) => "websocket connect failed: "@ + m@,
        CdpError::Transport(m) => "websocket transport: "@ + m@,
        CdpError::Protocol { method, message } => "CDP returned error for `"@ + method@ + "`: "@
            + message@,
        CdpError::Timeout(m) => "timed out waiting for `"@ + m@ + "`"@,
        CdpError::Closed => "connection closed"@,
        CdpError::Io(_) => Seq::empty(),
    }
}

impl JsonRpcError {
    /// The human-readable text of the error; for `Io`, the operating
    /// system's own message.
    pub fn message(&self) -> (r: String)
        ensures
            !(self is Io) ==> r@ == json_rpc_error_text(*self),
    {
        let mut v: Vec<char> = Vec::new();
        match self {
            JsonRpcError::Connect(m) => {
                push_str(&mut v, "websocket connect failed: ");
                push_str(&mut v, m.as_str());
            },
            JsonRpcError::Transport(m) => {
                push_str(&mut v, "websocket transport: ");
                push_str(&mut v, m.as_str());
            },
            JsonRpcError::Protocol { method, message } => {
                push_str(&mut v, "protocol returned error for `");
                push_str(&mut v, method.as_str());
                push_str(&mut v, "`: ");
                push_str(&mut v, message.as_str());
            },
            JsonRpcError::Timeout(m) => {
                push_str(&mut v, "timed out waiting for `");
                push_str(&mut v, m.as_str());
                push_str(&mut v, "`");
            },
            JsonRpcError::Closed => {
                push_str(&mut v, "connection closed");
            },
            JsonRpcError::Io(e) => {
                return io_error_text(e);
            },
        }
        string_of(v)
    }
}

impl CdpError {
    /// The human-readable text of the error; for `Io`, the operating
    /// system's own message.
    pub fn message(&self) -> (r: String)
        ensures
            !(self is Io) ==> r@ == cdp_error_text(*self),
    {
        let mut v: Vec<char> = Vec::new();
        match self {
            CdpError::Connect(m) => {
                push_str(&mut v, "websocket connect failed: ");
                push_str(&mut v, m.as_str());
            },
            CdpError::Transport(m) => {
                push_str(&mut v, "websocket transport: ");
                push_str(&mut v, m.as_str());
            },
            CdpError::Protocol { method, message } => {
                push_str(&mut v, "CDP returned error for `");
                push_str(&mut v, method.as_str());
                push_str(&mut v, "`: ");
                push_str(&mut v, message.as_str());
            },
            CdpError::Timeout(m) => {
                push_str(&mut v, "timed out waiting for `");
                push_str(&mut v, m.as_str());
                push_str(&mut v, "`");
            },
            CdpError::Closed => {
                push_str(&mut v, "connection closed");
            },
            CdpError::Io(e) => {
                return io_error_text(e);
            },
        }
        string_of(v)
    }
}

/// A transport error becomes the CDP error of the same kind, with the same
/// payload.
pub open spec fn cdp_error_of(e: JsonRpcError) -> CdpError {
    match e {
        JsonRpcError::Connect(m) => CdpError::Connect(m),
        JsonRpcError::Transport(m) => CdpError::Transport(m),
        JsonRpcError::Protocol { method, message } => CdpError::Protocol { method, message },
        JsonRpcError::Timeout(m) => CdpError::Timeout(m),
        JsonRpcError::Closed => CdpError::Closed,
        JsonRpcError::Io(x) => CdpError::Io(x),
    }
}

impl From<JsonRpcError> for CdpError {
    fn from(e: JsonRpcError) -> (r: CdpError) {
        match e {
            JsonRpcError::Connect(m) => CdpError::Connect(m),
            JsonRpcError::Transport(m) => CdpError::Transport(m),
            JsonRpcError::Protocol { method, message } => CdpError::Protocol { method, message },
            JsonRpcError::Timeout(m) => CdpError::Timeout(m),
            JsonRpcError::Closed => CdpError::Closed,
            JsonRpcError::Io(x) => CdpError::Io(x),
        }
    }
}

impl vstd::std_specs::convert::FromSpecImpl<JsonRpcError> for CdpError {
    open spec fn obeys_from_spec() -> bool {
        true
    }

    open spec fn from_spec(v: JsonRpcError) -> CdpError {
        cdp_error_of(v)
    }
}

/// Browser-level params used when launching Chromium.
#[derive(Debug, Clone, PartialEq, Eq)]
pub struct LaunchOptions {
    /// Path to the Chrome/Chromium binary; auto-detected when `None`.
    pub executable: Option<String>,
    /// User data directory; a fresh temp dir is used when `None`.
    pub user_data_dir: Option<String>,
    /// Run headless.
    pub headless: bool,
    /// Extra command-line flags.
    pub extra_args: Vec<String>,
    /// How long to wait for the DevTools endpoint to appear.
    pub launch_timeout_ms: u64,
}

impl Default for LaunchOptions {
    fn default() -> (o: LaunchOptions)
        ensures
            o.executable is None,
            o.user_data_dir is None,
            o.headless,
            o.extra_args@.len() == 0,
            o.launch_timeout_ms == 15_000,
    {
        LaunchOptions {
            executable: None,
            user_data_dir: None,
            headless: true,
            extra_args: Vec::new(),
            launch_timeout_ms: 15_000,
        }
    }
}

/// Where an inbound DevTools frame goes: the pending call with its `id`,
/// the event bus (a frame with a `method` and no `id`), or nowhere.
#[derive(Debug, Clone, Copy, PartialEq, Eq, Structural)]
pub enum FrameRoute {
    Response(u64),
    Event,
    Ignore,
}

/// A frame with a numeric `id` answers that call; otherwise one with a
/// `method` is an event; anything else is dropped.
pub open spec fn frame_route_spec(id: Option<u64>, has_method: bool) -> FrameRoute {
    match id {
        Some(i) => FrameRoute::Response(i),
        None => if has_method {
            FrameRoute::Event
        } else {
            FrameRoute::Ignore
        },
    }
}

/// Routes a decoded frame by its numeric `id` and whether it names a
/// string `method`.
pub fn route_frame(id: Option<u64>, has_method: bool) -> (r: FrameRoute)
    ensures
        r == frame_route_spec(id, has_method),
{
    match id {
        Some(i) => FrameRoute::Response(i),
        None => if has_method {
            FrameRoute::Event
        } else {
            FrameRoute::Ignore
        },
    }
}

/// The error a call of `method` fails with, given the response's `error`
/// member: `None` when the member is absent, else `Some` of its string
/// `message` (`None` when it has none).
pub fn protocol_error(method: &str, error: Option<Option<String>>) -> (r: Option<JsonRpcError>)
    ensures
        match error {
            None => r is None,
            Some(m) => r matches Some(JsonRpcError::Protocol { method: name, message }) && name@ == method@
                && message@ == (match m {
                Some(t) => t@,
                None => "unknown protocol error"@,
            }),
        },
{
    match error {
        None => None,
        Some(m) => {
            let message = match m {
                Some(t) => t,
                None => "unknown protocol error".to_owned(),
            };
            Some(JsonRpcError::Protocol { method: method.to_owned(), message })
        },
    }
}

/// An awaited event matches when it has the awaited method and comes
/// from the awaiting session.
pub fn event_matches(event_method: &str, event_session: Option<&str>, method: &str, session_id: &str) -> (r: bool)
    ensures
        r == (event_method@ == method@ && (event_session matches Some(s) && s@ == session_id@)),
{
    let em = chars_of(event_method);
    if !eq_str(&em, method) {
        return false;
    }
    match event_session {
        Some(s) => {
            let sv = chars_of(s);
            eq_str(&sv, session_id)
        },
        None => false,
    }
}

/// The message of a script exception: `text: description`, trimmed,
/// with `JS exception` standing in for a missing text and nothing for a
/// missing description.
pub open spec fn exception_message(text: Option<Seq<char>>, description: Option<Seq<char>>) -> Seq<char> {
    let t = match text {
        Some(x) => x,
        None => "JS exception"@,
    };
    let d = match description {
        Some(x) => x,
        None => Seq::empty(),
    };
    trim(t + ": "@ + d)
}

/// The error a page evaluation fails with when the script threw: a
/// protocol error of `Runtime.evaluate` carrying the exception's text and
/// description.
pub fn exception_error(text: Option<&str>, description: Option<&str>) -> (r: CdpError)
    ensures
        r matches CdpError::Protocol { method, message } && method@ == "Runtime.evaluate"@
            && message@ == exception_message(
            match text {
                Some(x) => Some(x@),
                None => None,
            },
            match description {
                Some(x) => Some(x@),
                None => None,
            },
        ),
{
    let mut v: Vec<char> = Vec::new();
    match text {
        Some(t) => push_str(&mut v, t),
        None => push_str(&mut v, "JS exception"),
    }
    push_str(&mut v, ": ");
    match description {
        Some(d) => push_str(&mut v, d),
        None => {},
    }
    let trimmed = trim_vec(&v);
    CdpError::Protocol { method: "Runtime.evaluate".to_owned(), message: string_of(trimmed) }
}

/// The fixed switches a launched browser starts with, before its
/// profile directory.
pub open spec fn base_chrome_switches() -> Seq<Seq<char>> {
    seq![
        "--remote-debugging-port=0"@,
        "--no-first-run"@,
        "--no-default-browser-check"@,
        "--disable-background-networking"@,
        "--disable-default-apps"@,
        "--disable-extensions"@,
        "--disable-sync"@,
        "--disable-translate"@,
        "--no-sandbox"@,
        "--disable-dev-shm-usage"@,
        "--remote-debugging-address=127.0.0.1"@,
    ]
}

/// The command line of a launched browser: the fixed switches, the
/// profile directory, `about:blank`, `--headless=new` when headless, then
/// the caller's extra arguments.
pub open spec fn chrome_args_spec(user_data_dir: Seq<char>, headless: bool, extra: Seq<Seq<char>>) -> Seq<Seq<char>> {
    base_chrome_switches() + seq!["--user-data-dir="@ + user_data_dir, "about:blank"@] + (if headless {
        seq!["--headless=new"@]
    } else {
        Seq::empty()
    }) + extra
}

/// The texts of a vector of strings.
pub open spec fn strings_view(v: Seq<String>) -> Seq<Seq<char>> {
    v.map_values(|s: String| s@)
}

/// Builds the browser's command-line arguments.
pub fn chrome_args(user_data_dir: &str, headless: bool, extra: &Vec<String>) -> (r: Vec<String>)
    ensures
        strings_view(r@) == chrome_args_spec(user_data_dir@, headless, strings_view(extra@)),
{
    let mut r: Vec<String> = Vec::new();
    r.push("--remote-debugging-port=0".to_owned());
    r.push("--no-first-run".to_owned());
    r.push("--no-default-browser-check".to_owned());
    r.push("--disable-background-networking".to_owned());
    r.push("--disable-default-apps".to_owned());
    r.push("--disable-extensions".to_owned());
    r.push("--disable-sync".to_owned());
    r.push("--disable-translate".to_owned());
    r.push("--no-sandbox".to_owned());
    r.push("--disable-dev-shm-usage".to_owned());
    r.push("--remote-debugging-address=127.0.0.1".to_owned());
    let mut d = chars_of("--user-data-dir=");
    push_str(&mut d, user_data_dir);
    r.push(string_of(d));
    r.push("about:blank".to_owned());
    if headless {
        r.push("--headless=new".to_owned());
    }
    let ghost fixed = strings_view(r@);
    let ghost tail = if headless { seq!["--headless=new"@] } else { Seq::<Seq<char>>::empty() };
    assert(fixed =~= base_chrome_switches() + seq!["--user-data-dir="@ + user_data_dir@, "about:blank"@] + tail);
    let mut i: usize = 0;
    while i < extra.len()
        invariant
            i <= extra.len(),
            strings_view(r@) == fixed + strings_view(extra@).take(i as int),
        decreases extra.len() - i,
    {
        let ghost prev = r@;
        let c = extra[i].clone();
        r.push(c);
        assert(r@ =~= prev.push(c));
        assert(strings_view(prev.push(c)) =~= strings_view(prev).push(c@));
        assert(strings_view(extra@).take(i + 1) =~= strings_view(extra@).take(i as int).push(extra@[i as int]@));
        assert(strings_view(r@) =~= fixed + strings_view(extra@).take(i + 1));
        i = i + 1;
    }
    assert(strings_view(extra@).take(extra.len() as int) =~= strings_view(extra@));
    r
}

} // verus!
