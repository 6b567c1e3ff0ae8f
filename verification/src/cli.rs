//! Command-line options of the capture tool and their mapping to a
//! [`SniffConfig`]: backend choice, the wait pipeline, ordered actions,
//! extra HTTP headers and the output switches.
use crate::action::{action_parse, parse_action, strings_model, Action, ActionModel};
use crate::config::{
    categories_parse, output_format_parse, parse_categories, viewport_parse, ElementFilter,
    OutputConfig, OutputFormat, SniffConfig, Viewport,
};
use crate::error::{ErrorKind, SniffError};
use crate::properties::StyleCategory;
use crate::text::{
    opt_view,
    before_any, chars_of, find_char, find_first, lemma_find_first, prefix_before_any, push_str, slice_of, starts_with, string_of, trim, trim_vec,
};
use crate::wait::{
    default_pipeline_model, parse_wait_strategy, pipeline_model, wait_parse, WaitStrategy,
    WaitStrategyModel,
};
use vstd::prelude::*;

verus! {

/// Which capture backend to use.
#[derive(Debug, Clone, Copy, PartialEq, Eq, Structural)]
pub enum Backend {
    /// Chromium over CDP (the classic computed-style capture).
    Web,
    /// A debug-mode Flutter app over the Dart VM Service.
    Flutter,
    /// Infer from `--url`: `flutter://<device>` means Flutter, else web.
    Auto,
}

/// The options of one capture run. The `--min-width`/`--min-height`
/// element-size filters take floating-point values and are not among
/// them.
#[derive(Debug, Clone, PartialEq, Eq)]
pub struct Cli {
    pub url: String,
    pub selector: Option<String>,
    pub depth: usize,
    pub categories: String,
    pub props: Vec<String>,
    pub pseudo: Vec<String>,
    pub wait: Vec<String>,
    pub actions: Vec<String>,
    pub click: Vec<String>,
    pub hover: Vec<String>,
    /// `--type` specs.
    pub type_specs: Vec<String>,
    pub upload: Vec<String>,
    pub header: Vec<String>,
    pub storage_state: Option<String>,
    pub save_storage_state: Option<String>,
    pub backend: Backend,
    pub device: Option<String>,
    pub avd: Option<String>,
    pub project: Option<String>,
    pub target: String,
    pub attach: bool,
    pub no_visible: bool,
    pub exclude: Vec<String>,
    pub output: String,
    pub summary: bool,
    pub no_summary: bool,
    pub screenshot: Option<String>,
    pub fullpage_screenshot: bool,
    pub persist: bool,
    pub pretty: bool,
    pub no_rect: bool,
    pub no_path: bool,
    pub no_metrics: bool,
    pub no_normalize_colors: bool,
    pub no_group: bool,
    pub compact: bool,
    pub no_compact: bool,
    pub no_visibility: bool,
    pub no_style_hash: bool,
    pub no_aria: bool,
    pub contrast: bool,
    pub no_contrast: bool,
    pub ax: bool,
    pub no_ax: bool,
    pub ax_tree: bool,
    pub stabilize: bool,
    pub no_stabilize: bool,
    pub effects: bool,
    pub no_effects: bool,
    pub effects_limit: usize,
    pub chrome: Option<String>,
    pub connect: Option<String>,
    pub viewport: Option<String>,
    pub custom_props: bool,
    pub no_custom_props: bool,
    pub stable_key: Option<String>,
    pub attrs: Vec<String>,
    pub full: bool,
}

/// The backend a run uses: `auto` means Flutter for a `flutter://` URL
/// and web otherwise.
pub open spec fn backend_of(backend: Backend, url: Seq<char>) -> Backend {
    match backend {
        Backend::Auto => if "flutter://"@.is_prefix_of(url) {
            Backend::Flutter
        } else {
            Backend::Web
        },
        b => b,
    }
}

/// The device of a `flutter://<device>[/...]` URL, when it names one.
/// Where a Flutter capture runs.
#[derive(Debug, Clone, PartialEq, Eq)]
pub enum DeviceChoice {
    /// Launch the named Android virtual device.
    Emulator(String),
    /// Use the attached device with this serial.
    Serial(String),
}

/// What a Flutter capture with no device says.
pub const DEVICE_HINT: &'static str = "flutter backend needs --device <serial>, --avd <name> or a flutter://<device> URL";

pub open spec fn device_of(url: Seq<char>) -> Option<Seq<char>> {
    if "flutter://"@.is_prefix_of(url) {
        let host = before_any(url.skip("flutter://"@.len() as int), "/"@);
        if host.len() == 0 {
            None
        } else {
            Some(host)
        }
    } else {
        None
    }
}

// ---------------------------------------------------------------------------
// Headers
// ---------------------------------------------------------------------------

pub open spec fn headers_model(v: Seq<(String, String)>) -> Seq<(Seq<char>, Seq<char>)> {
    v.map_values(|h: (String, String)| (h.0@, h.1@))
}

/// What `parse_header` gives for `Name: Value`: both sides trimmed and
/// non-empty.
pub open spec fn header_parse(spec: Seq<char>) -> Result<(Seq<char>, Seq<char>), Seq<char>> {
    match find_first(spec, ':') {
        None => Err(
            "invalid header `"@ + spec
                + "` — expected `Name: Value` (e.g. `X-CMS-AI-Token: <token>`)"@,
        ),
        Some(i) => {
            let name = trim(spec.take(i));
            let value = trim(spec.skip(i + 1));
            if name.len() == 0 || value.len() == 0 {
                Err("invalid header `"@ + spec + "` — both name and value must be non-empty"@)
            } else {
                Ok((name, value))
            }
        },
    }
}

/// Parse a `Name: Value` header spec into `(name, value)`.
pub fn parse_header(spec: &str) -> (r: Result<(String, String), SniffError>)
    ensures
        match r {
            Ok(h) => header_parse(spec@) == Ok::<(Seq<char>, Seq<char>), Seq<char>>((h.0@, h.1@)),
            Err(e) => e is Other && header_parse(spec@) == Err::<
                (Seq<char>, Seq<char>),
                Seq<char>,
            >(e@.1),
        },
{
    let s = chars_of(spec);
    match find_char(&s, ':') {
        None => {
            let mut m: Vec<char> = Vec::new();
            push_str(&mut m, "invalid header `");
            push_str(&mut m, spec);
            push_str(&mut m, "` — expected `Name: Value` (e.g. `X-CMS-AI-Token: <token>`)");
            Err(SniffError::Other(string_of(m)))
        },
        Some(i) => {
            proof {
                lemma_find_first(s@, ':');
            }
            let n = s.len();
            let name = trim_vec(&slice_of(&s, 0, i));
            let value = trim_vec(&slice_of(&s, i + 1, n));
            assert(s@.subrange(0, i as int) =~= s@.take(i as int));
            assert(s@.subrange(i + 1, n as int) =~= s@.skip(i + 1));
            if name.len() == 0 || value.len() == 0 {
                let mut m: Vec<char> = Vec::new();
                push_str(&mut m, "invalid header `");
                push_str(&mut m, spec);
                push_str(&mut m, "` — both name and value must be non-empty");
                Err(SniffError::Other(string_of(m)))
            } else {
                Ok((string_of(name), string_of(value)))
            }
        },
    }
}

/// Index of the first header named `k`.
pub open spec fn header_index(hs: Seq<(Seq<char>, Seq<char>)>, k: Seq<char>) -> Option<int>
    decreases hs.len(),
{
    if hs.len() == 0 {
        None
    } else if hs[0].0 == k {
        Some(0)
    } else {
        match header_index(hs.drop_first(), k) {
            Some(i) => Some(i + 1),
            None => None,
        }
    }
}

/// The value of the first header named `k`.
pub open spec fn header_value(hs: Seq<(Seq<char>, Seq<char>)>, k: Seq<char>) -> Option<Seq<char>>
    decreases hs.len(),
{
    if hs.len() == 0 {
        None
    } else if hs[0].0 == k {
        Some(hs[0].1)
    } else {
        header_value(hs.drop_first(), k)
    }
}

/// `hs` with header `k` set to `v`: the first header of that name takes
/// the value, or the header is appended.
pub open spec fn with_header(hs: Seq<(Seq<char>, Seq<char>)>, k: Seq<char>, v: Seq<char>) -> Seq<
    (Seq<char>, Seq<char>),
> {
    match header_index(hs, k) {
        Some(i) => hs.update(i, (k, v)),
        None => hs.push((k, v)),
    }
}

pub proof fn lemma_header_index(hs: Seq<(Seq<char>, Seq<char>)>, k: Seq<char>)
    ensures
        match header_index(hs, k) {
            Some(i) => 0 <= i < hs.len() && hs[i].0 == k && forall|j: int|
                0 <= j < i ==> hs[j].0 != k,
            None => forall|j: int| 0 <= j < hs.len() ==> hs[j].0 != k,
        },
    decreases hs.len(),
{
    if hs.len() > 0 && hs[0].0 != k {
        lemma_header_index(hs.drop_first(), k);
        assert forall|j: int| 0 < j < hs.len() implies hs[j] == hs.drop_first()[j - 1] by {}
    }
}

proof fn lemma_header_value_at(hs: Seq<(Seq<char>, Seq<char>)>, k: Seq<char>, i: int)
    requires
        0 <= i < hs.len(),
        hs[i].0 == k,
        forall|j: int| 0 <= j < i ==> hs[j].0 != k,
    ensures
        header_value(hs, k) == Some(hs[i].1),
    decreases i,
{
    if i > 0 {
        lemma_header_value_at(hs.drop_first(), k, i - 1);
    }
}

proof fn lemma_header_value_none(hs: Seq<(Seq<char>, Seq<char>)>, k: Seq<char>)
    requires
        forall|j: int| 0 <= j < hs.len() ==> hs[j].0 != k,
    ensures
        header_value(hs, k) is None,
    decreases hs.len(),
{
    if hs.len() > 0 {
        lemma_header_value_none(hs.drop_first(), k);
    }
}

proof fn lemma_header_value_first(hs: Seq<(Seq<char>, Seq<char>)>, k: Seq<char>)
    ensures
        match header_value(hs, k) {
            Some(v) => exists|i: int|
                0 <= i < hs.len() && hs[i].0 == k && hs[i].1 == v && forall|j: int|
                    0 <= j < i ==> hs[j].0 != k,
            None => forall|j: int| 0 <= j < hs.len() ==> hs[j].0 != k,
        },
    decreases hs.len(),
{
    lemma_header_index(hs, k);
    match header_index(hs, k) {
        Some(i) => {
            lemma_header_value_at(hs, k, i);
        },
        None => {
            lemma_header_value_none(hs, k);
        },
    }
}

/// Setting header `k` to `v` makes `k` read `v` and leaves every other
/// name as it was: a later setting of a name wins over earlier ones.
pub proof fn lemma_with_header(hs: Seq<(Seq<char>, Seq<char>)>, k: Seq<char>, v: Seq<char>, k2: Seq<char>)
    ensures
        header_value(with_header(hs, k, v), k) == Some(v),
        k2 != k ==> header_value(with_header(hs, k, v), k2) == header_value(hs, k2),
{
    lemma_header_index(hs, k);
    let r = with_header(hs, k, v);
    match header_index(hs, k) {
        Some(i) => {
            lemma_header_value_at(r, k, i);
        },
        None => {
            lemma_header_value_at(r, k, hs.len() as int);
        },
    }
    if k2 != k {
        lemma_header_value_first(hs, k2);
        match header_value(hs, k2) {
            Some(w) => {
                let i2 = choose|i: int|
                    0 <= i < hs.len() && hs[i].0 == k2 && hs[i].1 == w && forall|j: int|
                        0 <= j < i ==> hs[j].0 != k2;
                lemma_header_value_at(r, k2, i2);
            },
            None => {
                lemma_header_value_none(r, k2);
            },
        }
    }
}

/// Set header `k` to `v` in `headers`.
fn set_header(headers: &mut Vec<(String, String)>, k: String, v: String)
    ensures
        headers_model(final(headers)@) == with_header(headers_model(old(headers)@), k@, v@),
{
    let ghost hm = headers_model(headers@);
    let mut i: usize = 0;
    while i < headers.len()
        invariant
            i <= headers.len(),
            headers@ == old(headers)@,
            hm == headers_model(headers@),
            forall|j: int| 0 <= j < i ==> hm[j].0 != k@,
        decreases headers.len() - i,
    {
        if headers[i].0 == k {
            proof {
                lemma_header_index(hm, k@);
                assert(header_index(hm, k@) == Some(i as int)) by {
                    if header_index(hm, k@) != Some(i as int) {
                        match header_index(hm, k@) {
                            Some(m) => {
                                if m < i {
                                } else {
                                    assert(hm[i as int].0 == k@);
                                }
                            },
                            None => {
                                assert(hm[i as int].0 == k@);
                            },
                        }
                    }
                }
            }
            let ghost kv = k@;
            let ghost vv = v@;
            headers.set(i, (k, v));
            assert(headers_model(headers@) =~= hm.update(i as int, (kv, vv)));
            return;
        }
        i = i + 1;
    }
    proof {
        lemma_header_index(hm, k@);
        assert(header_index(hm, k@) is None) by {
            match header_index(hm, k@) {
                Some(m) => {
                    assert(hm[m].0 == k@);
                },
                None => {},
            }
        }
    }
    let ghost kv = k@;
    let ghost vv = v@;
    headers.push((k, v));
    assert(headers_model(headers@) =~= hm.push((kv, vv)));
}

/// One member of a JSON object: a string, or any other JSON value.
#[derive(Debug, Clone, PartialEq, Eq)]
pub enum JsonMember {
    Text(String),
    Other,
}

pub enum JsonMemberModel {
    Text(Seq<char>),
    Other,
}

pub open spec fn members_model(v: Seq<(String, JsonMember)>) -> Seq<(Seq<char>, JsonMemberModel)> {
    v.map_values(
        |m: (String, JsonMember)|
            (
                m.0@,
                match m.1 {
                    JsonMember::Text(s) => JsonMemberModel::Text(s@),
                    JsonMember::Other => JsonMemberModel::Other,
                },
            ),
    )
}

/// The members of the JSON object that `raw` holds, in the order the
/// object map yields them, or the parser's error message.
pub uninterp spec fn json_object_members(raw: Seq<char>) -> Result<
    Seq<(Seq<char>, JsonMemberModel)>,
    Seq<char>,
>;

/// `serde_json::from_str` of `raw` into a JSON object map, its members
/// converted one for one (string values kept as text); on failure the
/// error's `Display`. The result is the named `json_object_members` of
/// `raw`.
#[verifier::external_body]
fn parse_json_object(raw: &str) -> (r: Result<Vec<(String, JsonMember)>, String>)
    ensures
        match r {
            Ok(v) => json_object_members(raw@) == Ok::<
                Seq<(Seq<char>, JsonMemberModel)>,
                Seq<char>,
            >(members_model(v@)),
            Err(m) => json_object_members(raw@) == Err::<
                Seq<(Seq<char>, JsonMemberModel)>,
                Seq<char>,
            >(m@),
        },
{
    match serde_json::from_str::<serde_json::Map<String, serde_json::Value>>(raw) {
        Ok(map) => Ok(
            map.into_iter().map(
                |(k, v)|
                    match v {
                        serde_json::Value::String(s) => (k, JsonMember::Text(s)),
                        _ => (k, JsonMember::Other),
                    },
            ).collect(),
        ),
        Err(e) => Err(e.to_string()),
    }
}

/// The string members, in order.
pub open spec fn text_members(ms: Seq<(Seq<char>, JsonMemberModel)>) -> Seq<(Seq<char>, Seq<char>)>
    decreases ms.len(),
{
    if ms.len() == 0 {
        Seq::empty()
    } else {
        let rest = text_members(ms.drop_last());
        match ms.last().1 {
            JsonMemberModel::Text(v) => rest.push((ms.last().0, v)),
            JsonMemberModel::Other => rest,
        }
    }
}

/// The headers a `SNIFF_DEFAULT_HEADERS` value gives: none when unset or
/// blank, else the string members of the JSON object it holds.
pub open spec fn default_headers_spec(raw: Option<Seq<char>>) -> Result<
    Seq<(Seq<char>, Seq<char>)>,
    (ErrorKind, Seq<char>),
> {
    match raw {
        None => Ok(Seq::empty()),
        Some(r) => if trim(r).len() == 0 {
            Ok(Seq::empty())
        } else {
            match json_object_members(r) {
                Err(m) => Err(
                    (
                        ErrorKind::Other,
                        "invalid SNIFF_DEFAULT_HEADERS (expected a JSON object): "@ + m,
                    ),
                ),
                Ok(ms) => Ok(text_members(ms)),
            }
        },
    }
}

/// The headers of a `SNIFF_DEFAULT_HEADERS` value.
pub fn default_headers(raw: Option<String>) -> (r: Result<Vec<(String, String)>, SniffError>)
    ensures
        match r {
            Ok(h) => default_headers_spec(opt_view(raw)) == Ok::<
                Seq<(Seq<char>, Seq<char>)>,
                (ErrorKind, Seq<char>),
            >(headers_model(h@)),
            Err(e) => default_headers_spec(opt_view(raw)) == Err::<
                Seq<(Seq<char>, Seq<char>)>,
                (ErrorKind, Seq<char>),
            >(e@),
        },
{
    let none: Vec<(String, String)> = Vec::new();
    assert(headers_model(none@) =~= Seq::<(Seq<char>, Seq<char>)>::empty());
    let raw = match raw {
        None => {
            return Ok(none);
        },
        Some(r) => r,
    };
    if trim_vec(&chars_of(raw.as_str())).len() == 0 {
        return Ok(none);
    }
    match parse_json_object(raw.as_str()) {
        Err(m) => {
            let mut v: Vec<char> = Vec::new();
            push_str(&mut v, "invalid SNIFF_DEFAULT_HEADERS (expected a JSON object): ");
            push_str(&mut v, m.as_str());
            Err(SniffError::Other(string_of(v)))
        },
        Ok(members) => {
            let ghost mm = members_model(members@);
            let n = members.len();
            let mut out: Vec<(String, String)> = Vec::new();
            let mut j: usize = 0;
            while j < n
                invariant
                    j <= n,
                    n == members@.len(),
                    mm == members_model(members@),
                    headers_model(out@) == text_members(mm.take(j as int)),
                decreases n - j,
            {
                assert(mm.take(j + 1).drop_last() =~= mm.take(j as int));
                let name = &members[j].0;
                match &members[j].1 {
                    JsonMember::Text(value) => {
                        let ghost before = headers_model(out@);
                        let nc = name.clone();
                        let vc = value.clone();
                        out.push((nc, vc));
                        assert(headers_model(out@) =~= before.push((name@, value@)));
                    },
                    JsonMember::Other => {},
                }
                j = j + 1;
            }
            assert(mm.take(n as int) =~= mm);
            Ok(out)
        },
    }
}

// ---------------------------------------------------------------------------
// Lists of waits and actions
// ---------------------------------------------------------------------------

pub open spec fn actions_model(v: Seq<Action>) -> Seq<ActionModel> {
    v.map_values(|a: Action| a@)
}

/// The wait strategies of `specs`, in order; the first that does not read
/// is the error.
pub open spec fn waits_parse(specs: Seq<Seq<char>>) -> Result<
    Seq<WaitStrategyModel>,
    (ErrorKind, Seq<char>),
>
    decreases specs.len(),
{
    if specs.len() == 0 {
        Ok(Seq::empty())
    } else {
        match wait_parse(specs[0]) {
            Err(e) => Err(e),
            Ok(w) => match waits_parse(specs.drop_first()) {
                Err(e) => Err(e),
                Ok(rest) => Ok(seq![w] + rest),
            },
        }
    }
}

/// The run's wait pipeline: the default pipeline for the selector when no
/// wait is given, else the given waits.
pub open spec fn waits_for(specs: Seq<Seq<char>>, selector: Seq<char>) -> Result<
    Seq<WaitStrategyModel>,
    (ErrorKind, Seq<char>),
> {
    if specs.len() == 0 {
        Ok(default_pipeline_model(selector))
    } else {
        waits_parse(specs)
    }
}

/// Parse every wait spec.
pub fn parse_waits(specs: &Vec<String>) -> (r: Result<Vec<WaitStrategy>, SniffError>)
    ensures
        match r {
            Ok(ws) => waits_parse(strings_model(specs@)) == Ok::<
                Seq<WaitStrategyModel>,
                (ErrorKind, Seq<char>),
            >(pipeline_model(ws@)),
            Err(e) => waits_parse(strings_model(specs@)) == Err::<
                Seq<WaitStrategyModel>,
                (ErrorKind, Seq<char>),
            >(e@),
        },
{
    let ghost all = strings_model(specs@);
    let mut out: Vec<WaitStrategy> = Vec::new();
    let mut i: usize = 0;
    assert(all.skip(0) =~= all);
    while i < specs.len()
        invariant
            i <= specs.len(),
            all == strings_model(specs@),
            waits_parse(all) == (match waits_parse(all.skip(i as int)) {
                Ok(rest) => Ok(pipeline_model(out@) + rest),
                Err(e) => Err::<Seq<WaitStrategyModel>, (ErrorKind, Seq<char>)>(e),
            }),
        decreases specs.len() - i,
    {
        let ghost rest = all.skip(i as int);
        assert(rest.drop_first() =~= all.skip(i + 1));
        assert(rest[0] == specs@[i as int]@);
        match parse_wait_strategy(specs[i].as_str()) {
            Err(e) => {
                return Err(e);
            },
            Ok(w) => {
                let ghost before = pipeline_model(out@);
                out.push(w);
                assert(pipeline_model(out@) =~= before.push(w@));
                proof {
                    match waits_parse(all.skip(i + 1)) {
                        Ok(tail) => {
                            assert(before + (seq![w@] + tail) =~= pipeline_model(out@) + tail);
                        },
                        Err(_) => {},
                    }
                }
            },
        }
        i = i + 1;
    }
    assert(all.skip(specs.len() as int) =~= Seq::<Seq<char>>::empty());
    assert(pipeline_model(out@) + Seq::<WaitStrategyModel>::empty() =~= pipeline_model(out@));
    Ok(out)
}

/// The actions of `specs`, each read with `prefix` in front, in order; the
/// first that does not read is the error.
pub open spec fn actions_parse(specs: Seq<Seq<char>>, prefix: Seq<char>) -> Result<
    Seq<ActionModel>,
    (ErrorKind, Seq<char>),
>
    decreases specs.len(),
{
    if specs.len() == 0 {
        Ok(Seq::empty())
    } else {
        match action_parse(prefix + specs[0]) {
            Err(e) => Err(e),
            Ok(a) => match actions_parse(specs.drop_first(), prefix) {
                Err(e) => Err(e),
                Ok(rest) => Ok(seq![a] + rest),
            },
        }
    }
}

/// Parse every spec (with `prefix` in front) and append the actions to
/// `out`.
fn parse_actions_into(out: &mut Vec<Action>, specs: &Vec<String>, prefix: &str) -> (r: Result<
    (),
    SniffError,
>)
    ensures
        match r {
            Ok(()) => actions_parse(strings_model(specs@), prefix@) == Ok::<
                Seq<ActionModel>,
                (ErrorKind, Seq<char>),
            >(actions_model(final(out)@).skip(old(out)@.len() as int)) && actions_model(
                final(out)@,
            ).take(old(out)@.len() as int) == actions_model(old(out)@) && final(out)@.len()
                >= old(out)@.len(),
            Err(e) => actions_parse(strings_model(specs@), prefix@) == Err::<
                Seq<ActionModel>,
                (ErrorKind, Seq<char>),
            >(e@),
        },
{
    let ghost all = strings_model(specs@);
    let ghost start = actions_model(out@);
    let ghost base = out@.len();
    let mut i: usize = 0;
    assert(all.skip(0) =~= all);
    assert(actions_model(out@).skip(base as int) =~= Seq::<ActionModel>::empty());
    while i < specs.len()
        invariant
            i <= specs.len(),
            all == strings_model(specs@),
            base == old(out)@.len(),
            start == actions_model(old(out)@),
            out@.len() >= base,
            actions_model(out@).take(base as int) == start,
            actions_parse(all, prefix@) == (match actions_parse(all.skip(i as int), prefix@) {
                Ok(rest) => Ok(actions_model(out@).skip(base as int) + rest),
                Err(e) => Err::<Seq<ActionModel>, (ErrorKind, Seq<char>)>(e),
            }),
        decreases specs.len() - i,
    {
        let ghost rest = all.skip(i as int);
        assert(rest.drop_first() =~= all.skip(i + 1));
        assert(rest[0] == specs@[i as int]@);
        let mut text: Vec<char> = Vec::new();
        push_str(&mut text, prefix);
        push_str(&mut text, specs[i].as_str());
        let text = string_of(text);
        match parse_action(text.as_str()) {
            Err(e) => {
                return Err(e);
            },
            Ok(a) => {
                let ghost before = actions_model(out@);
                out.push(a);
                assert(actions_model(out@) =~= before.push(a@));
                assert(actions_model(out@).take(base as int) =~= before.take(base as int));
                assert(actions_model(out@).skip(base as int) =~= before.skip(base as int).push(a@));
                proof {
                    match actions_parse(all.skip(i + 1), prefix@) {
                        Ok(tail) => {
                            assert(before.skip(base as int) + (seq![a@] + tail)
                                =~= actions_model(out@).skip(base as int) + tail);
                        },
                        Err(_) => {},
                    }
                }
            },
        }
        i = i + 1;
    }
    assert(all.skip(specs.len() as int) =~= Seq::<Seq<char>>::empty());
    assert(actions_model(out@).skip(base as int) + Seq::<ActionModel>::empty()
        =~= actions_model(out@).skip(base as int));
    Ok(())
}

/// Concatenation of successful lists; the first error wins.
pub open spec fn then_actions(
    a: Result<Seq<ActionModel>, (ErrorKind, Seq<char>)>,
    b: Result<Seq<ActionModel>, (ErrorKind, Seq<char>)>,
) -> Result<Seq<ActionModel>, (ErrorKind, Seq<char>)> {
    match a {
        Err(e) => Err(e),
        Ok(x) => match b {
            Err(e) => Err(e),
            Ok(y) => Ok(x + y),
        },
    }
}

/// The run's actions: the ordered `--action` specs when there are any,
/// else the `--click`, `--hover`, `--type` and `--upload` shorthands, in
/// that group order.
pub open spec fn actions_for(cli: Cli) -> Result<Seq<ActionModel>, (ErrorKind, Seq<char>)> {
    if cli.actions@.len() > 0 {
        actions_parse(strings_model(cli.actions@), Seq::empty())
    } else {
        then_actions(
            then_actions(
                then_actions(
                    actions_parse(strings_model(cli.click@), "click:"@),
                    actions_parse(strings_model(cli.hover@), "hover:"@),
                ),
                actions_parse(strings_model(cli.type_specs@), "type:"@),
            ),
            actions_parse(strings_model(cli.upload@), "upload:"@),
        )
    }
}

/// The actions of a run.
fn collect_actions(cli: &Cli) -> (r: Result<Vec<Action>, SniffError>)
    ensures
        match r {
            Ok(v) => actions_for(*cli) == Ok::<Seq<ActionModel>, (ErrorKind, Seq<char>)>(
                actions_model(v@),
            ),
            Err(e) => actions_for(*cli) == Err::<Seq<ActionModel>, (ErrorKind, Seq<char>)>(e@),
        },
{
    let mut out: Vec<Action> = Vec::new();
    if cli.actions.len() > 0 {
        proof {
            reveal_strlit("");
            assert(""@ =~= Seq::<char>::empty());
        }
        parse_actions_into(&mut out, &cli.actions, "")?;
        assert(actions_model(out@).skip(0) =~= actions_model(out@));
        return Ok(out);
    }
    parse_actions_into(&mut out, &cli.click, "click:")?;
    let ghost m1 = actions_model(out@);
    assert(m1 =~= m1.skip(0));
    let ghost n1 = out@.len();
    parse_actions_into(&mut out, &cli.hover, "hover:")?;
    let ghost m2 = actions_model(out@);
    assert(m2 =~= m2.take(n1 as int) + m2.skip(n1 as int));
    let ghost n2 = out@.len();
    parse_actions_into(&mut out, &cli.type_specs, "type:")?;
    let ghost m3 = actions_model(out@);
    assert(m3 =~= m3.take(n2 as int) + m3.skip(n2 as int));
    let ghost n3 = out@.len();
    parse_actions_into(&mut out, &cli.upload, "upload:")?;
    let ghost m4 = actions_model(out@);
    assert(m4 =~= m4.take(n3 as int) + m4.skip(n3 as int));
    Ok(out)
}

// ---------------------------------------------------------------------------
// The run configuration
// ---------------------------------------------------------------------------

/// The selector of a run: the given one, `root` for Flutter, else an
/// error.
pub open spec fn selector_for(cli: Cli) -> Result<Seq<char>, (ErrorKind, Seq<char>)> {
    match cli.selector {
        Some(s) => Ok(s@),
        None => if backend_of(cli.backend, cli.url@) == Backend::Flutter {
            Ok("root"@)
        } else {
            Err(
                (
                    ErrorKind::Other,
                    "web backend needs --selector <css> (or use a `flutter://<device>` URL to sniff Flutter)"@,
                ),
            )
        },
    }
}

/// The headers with every `--header` spec applied in order.
pub open spec fn headers_applied(hs: Seq<(Seq<char>, Seq<char>)>, specs: Seq<Seq<char>>) -> Result<
    Seq<(Seq<char>, Seq<char>)>,
    (ErrorKind, Seq<char>),
>
    decreases specs.len(),
{
    if specs.len() == 0 {
        Ok(hs)
    } else {
        match header_parse(specs[0]) {
            Err(m) => Err((ErrorKind::Other, m)),
            Ok(kv) => headers_applied(with_header(hs, kv.0, kv.1), specs.drop_first()),
        }
    }
}

/// The run's headers: `SNIFF_DEFAULT_HEADERS` first, then the explicit
/// `--header` flags, which win on a name collision.
pub open spec fn headers_for(cli: Cli, env: Option<Seq<char>>) -> Result<
    Seq<(Seq<char>, Seq<char>)>,
    (ErrorKind, Seq<char>),
> {
    match default_headers_spec(env) {
        Err(e) => Err(e),
        Ok(hs) => headers_applied(hs, strings_model(cli.header@)),
    }
}

/// The run's output options.
pub open spec fn output_for(cli: Cli) -> Result<OutputConfig, (ErrorKind, Seq<char>)> {
    let format = if cli.no_summary {
        Ok(OutputFormat::JsonLines)
    } else if cli.summary {
        Ok(OutputFormat::Summary)
    } else {
        match output_format_parse(cli.output@) {
            Ok(f) => Ok(f),
            Err(m) => Err((ErrorKind::InvalidOutputFormat, m)),
        }
    };
    match format {
        Err(e) => Err(e),
        Ok(f) => Ok(
            OutputConfig {
                format: f,
                include_rect: !cli.no_rect,
                include_path: !cli.no_path,
                include_metrics: !cli.no_metrics,
                normalize_colors: !cli.no_normalize_colors,
                group_by_category: !cli.no_group,
                pretty: cli.pretty,
                compact: cli.compact && !cli.no_compact && !cli.full,
                include_visibility: !cli.no_visibility,
                include_style_hash: !cli.no_style_hash,
                include_aria: !cli.no_aria,
                include_contrast: cli.contrast && !cli.no_contrast && !cli.full,
                include_ax: (cli.ax && !cli.no_ax && !cli.full) || cli.ax_tree,
                viewport: None,
            },
        ),
    }
}

/// The run's viewport: the given `WxH`, else 1366x768.
pub open spec fn viewport_for(cli: Cli) -> Result<Option<Viewport>, (ErrorKind, Seq<char>)> {
    match cli.viewport {
        None => Ok(Some(Viewport { width: 1366, height: 768 })),
        Some(v) => match viewport_parse(v@) {
            Ok(vp) => Ok(Some(vp)),
            Err(m) => Err((ErrorKind::InvalidOutputFormat, m)),
        },
    }
}

/// The first error of a run's options, in the order they are read:
/// selector, waits, actions, headers, output format, viewport, categories.
pub open spec fn config_error(cli: Cli, env: Option<Seq<char>>) -> Option<(ErrorKind, Seq<char>)> {
    match selector_for(cli) {
        Err(e) => Some(e),
        Ok(sel) => match waits_for(strings_model(cli.wait@), sel) {
            Err(e) => Some(e),
            Ok(_) => match actions_for(cli) {
                Err(e) => Some(e),
                Ok(_) => match headers_for(cli, env) {
                    Err(e) => Some(e),
                    Ok(_) => match output_for(cli) {
                        Err(e) => Some(e),
                        Ok(_) => match viewport_for(cli) {
                            Err(e) => Some(e),
                            Ok(_) => match categories_parse(cli.categories@) {
                                Err(e) => Some(e),
                                Ok(_) => None,
                            },
                        },
                    },
                },
            },
        },
    }
}

fn selector_of(cli: &Cli) -> (r: Result<String, SniffError>)
    ensures
        match r {
            Ok(s) => selector_for(*cli) == Ok::<Seq<char>, (ErrorKind, Seq<char>)>(s@),
            Err(e) => selector_for(*cli) == Err::<Seq<char>, (ErrorKind, Seq<char>)>(e@),
        },
{
    match &cli.selector {
        Some(s) => Ok(s.clone()),
        None => {
            if cli.effective_backend() == Backend::Flutter {
                Ok(String::from_str("root"))
            } else {
                Err(
                    SniffError::Other(
                        String::from_str(
                            "web backend needs --selector <css> (or use a `flutter://<device>` URL to sniff Flutter)",
                        ),
                    ),
                )
            }
        },
    }
}

fn waits_of(cli: &Cli, selector: &str) -> (r: Result<Vec<WaitStrategy>, SniffError>)
    ensures
        match r {
            Ok(ws) => waits_for(strings_model(cli.wait@), selector@) == Ok::<
                Seq<WaitStrategyModel>,
                (ErrorKind, Seq<char>),
            >(pipeline_model(ws@)),
            Err(e) => waits_for(strings_model(cli.wait@), selector@) == Err::<
                Seq<WaitStrategyModel>,
                (ErrorKind, Seq<char>),
            >(e@),
        },
{
    if cli.wait.len() == 0 {
        Ok(WaitStrategy::default_pipeline(selector))
    } else {
        parse_waits(&cli.wait)
    }
}

fn headers_of(cli: &Cli, raw: Option<String>) -> (r: Result<Vec<(String, String)>, SniffError>)
    ensures
        match r {
            Ok(h) => headers_for(*cli, opt_view(raw)) == Ok::<
                Seq<(Seq<char>, Seq<char>)>,
                (ErrorKind, Seq<char>),
            >(headers_model(h@)),
            Err(e) => headers_for(*cli, opt_view(raw)) == Err::<
                Seq<(Seq<char>, Seq<char>)>,
                (ErrorKind, Seq<char>),
            >(e@),
        },
{
    let ghost env = opt_view(raw);
    let mut headers = default_headers(raw)?;
    let ghost hs0 = headers_model(headers@);
    let ghost specs = strings_model(cli.header@);
    let mut i: usize = 0;
    assert(specs.skip(0) =~= specs);
    while i < cli.header.len()
        invariant
            i <= cli.header.len(),
            specs == strings_model(cli.header@),
            env == opt_view(raw),
            default_headers_spec(env) == Ok::<Seq<(Seq<char>, Seq<char>)>, (ErrorKind, Seq<char>)>(hs0),
            headers_applied(hs0, specs) == headers_applied(
                headers_model(headers@),
                specs.skip(i as int),
            ),
        decreases cli.header.len() - i,
    {
        assert(specs.skip(i as int).drop_first() =~= specs.skip(i + 1));
        assert(specs.skip(i as int)[0] == cli.header@[i as int]@);
        let (k, v) = match parse_header(cli.header[i].as_str()) {
            Err(e) => {
                assert(headers_applied(headers_model(headers@), specs.skip(i as int)) == Err::<
                    Seq<(Seq<char>, Seq<char>)>,
                    (ErrorKind, Seq<char>),
                >(e@));
                return Err(e);
            },
            Ok(kv) => kv,
        };
        set_header(&mut headers, k, v);
        i = i + 1;
    }
    assert(specs.skip(i as int) =~= Seq::<Seq<char>>::empty());
    Ok(headers)
}

fn output_of(cli: &Cli) -> (r: Result<OutputConfig, SniffError>)
    ensures
        match r {
            Ok(o) => output_for(*cli) == Ok::<OutputConfig, (ErrorKind, Seq<char>)>(o),
            Err(e) => output_for(*cli) == Err::<OutputConfig, (ErrorKind, Seq<char>)>(e@),
        },
{
    let format = if cli.no_summary {
        OutputFormat::JsonLines
    } else if cli.summary {
        OutputFormat::Summary
    } else {
        OutputFormat::parse_cli(cli.output.as_str())?
    };
    Ok(
        OutputConfig {
            format,
            include_rect: !cli.no_rect,
            include_path: !cli.no_path,
            include_metrics: !cli.no_metrics,
            normalize_colors: !cli.no_normalize_colors,
            group_by_category: !cli.no_group,
            pretty: cli.pretty,
            compact: cli.compact && !cli.no_compact && !cli.full,
            include_visibility: !cli.no_visibility,
            include_style_hash: !cli.no_style_hash,
            include_aria: !cli.no_aria,
            include_contrast: cli.contrast && !cli.no_contrast && !cli.full,
            include_ax: (cli.ax && !cli.no_ax && !cli.full) || cli.ax_tree,
            viewport: None,
        },
    )
}

fn viewport_of(cli: &Cli) -> (r: Result<Option<Viewport>, SniffError>)
    ensures
        match r {
            Ok(v) => viewport_for(*cli) == Ok::<Option<Viewport>, (ErrorKind, Seq<char>)>(v),
            Err(e) => viewport_for(*cli) == Err::<Option<Viewport>, (ErrorKind, Seq<char>)>(e@),
        },
{
    match &cli.viewport {
        Some(v) => Ok(Some(Viewport::parse_cli(v.as_str())?)),
        None => Ok(Some(Viewport { width: 1366, height: 768 })),
    }
}

impl Cli {
    /// The backend this run uses.
    pub fn effective_backend(&self) -> (b: Backend)
        ensures
            b == backend_of(self.backend, self.url@),
    {
        match self.backend {
            Backend::Auto => {
                if starts_with(&chars_of(self.url.as_str()), "flutter://") {
                    Backend::Flutter
                } else {
                    Backend::Web
                }
            },
            b => b,
        }
    }

    /// The device named by a `flutter://<device>` URL.
    pub fn flutter_device(&self) -> (r: Option<String>)
        ensures
            opt_view(r) == device_of(self.url@),
    {
        let u = chars_of(self.url.as_str());
        if !starts_with(&u, "flutter://") {
            return None;
        }
        let p = chars_of("flutter://");
        let rest = slice_of(&u, p.len(), u.len());
        assert(rest@ =~= u@.skip(p@.len() as int));
        let host = prefix_before_any(&rest, "/");
        if host.len() == 0 {
            None
        } else {
            Some(string_of(host))
        }
    }

    /// The device a Flutter capture runs on: an emulator to launch from
    /// `--avd`, else the serial of `--device`, else the device of a
    /// `flutter://<device>` URL.
    pub fn device_choice(&self) -> (r: Result<DeviceChoice, String>)
        ensures
            match r {
                Ok(DeviceChoice::Emulator(a)) => self.avd matches Some(x) && a@ == x@,
                Ok(DeviceChoice::Serial(d)) => self.avd is None && (match self.device {
                    Some(x) => d@ == x@,
                    None => device_of(self.url@) == Some(d@),
                }),
                Err(m) => self.avd is None && self.device is None && device_of(self.url@) is None
                    && m@ == DEVICE_HINT@,
            },
    {
        match &self.avd {
            Some(a) => Ok(DeviceChoice::Emulator(a.clone())),
            None => match &self.device {
                Some(d) => Ok(DeviceChoice::Serial(d.clone())),
                None => match self.flutter_device() {
                    Some(d) => Ok(DeviceChoice::Serial(d)),
                    None => Err(DEVICE_HINT.to_owned()),
                },
            },
        }
    }

    /// Map the options to a full run configuration. `default_headers` is
    /// the value of `SNIFF_DEFAULT_HEADERS`, when set.
    pub fn into_config(self, default_headers_raw: Option<String>) -> (r: Result<SniffConfig, SniffError>)
        ensures
            match r {
                Err(e) => config_error(self, opt_view(default_headers_raw)) == Some(e@),
                Ok(c) => {
                    &&& config_error(self, opt_view(default_headers_raw)) is None
                    &&& c.url@ == self.url@
                    &&& selector_for(self) == Ok::<Seq<char>, (ErrorKind, Seq<char>)>(c.selector@)
                    &&& c.depth == self.depth
                    &&& categories_parse(self.categories@) == Ok::<
                        Seq<StyleCategory>,
                        (ErrorKind, Seq<char>),
                    >(c.categories@)
                    &&& c.custom_properties@ == self.props@
                    &&& c.pseudo_elements@ == self.pseudo@
                    &&& waits_for(strings_model(self.wait@), c.selector@) == Ok::<
                        Seq<WaitStrategyModel>,
                        (ErrorKind, Seq<char>),
                    >(pipeline_model(c.wait@))
                    &&& c.filter.visible == !self.no_visible
                    &&& c.filter.exclude_selectors@ == self.exclude@
                    &&& output_for(self) == Ok::<OutputConfig, (ErrorKind, Seq<char>)>(c.output)
                    &&& viewport_for(self) == Ok::<Option<Viewport>, (ErrorKind, Seq<char>)>(
                        c.viewport,
                    )
                    &&& c.include_custom_properties == (self.custom_props && !self.no_custom_props
                        && !self.full)
                    &&& c.stable_key == self.stable_key
                    &&& c.attributes@ == self.attrs@
                    &&& c.stabilize == (self.stabilize && !self.no_stabilize && !self.full)
                    &&& c.ax_tree == self.ax_tree
                    &&& actions_for(self) == Ok::<Seq<ActionModel>, (ErrorKind, Seq<char>)>(
                        actions_model(c.actions@),
                    )
                    &&& c.effects == (self.effects && !self.no_effects)
                    &&& c.effects_limit == self.effects_limit
                    &&& c.screenshot == self.screenshot is Some
                    &&& c.screenshot_full_page == self.fullpage_screenshot
                    &&& headers_for(self, opt_view(default_headers_raw)) == Ok::<
                        Seq<(Seq<char>, Seq<char>)>,
                        (ErrorKind, Seq<char>),
                    >(headers_model(c.headers@))
                    &&& c.storage_state_path == self.storage_state
                    &&& c.save_storage_state == self.save_storage_state
                },
            },
    {
        let selector = selector_of(&self)?;
        let wait = waits_of(&self, selector.as_str())?;
        let actions = collect_actions(&self)?;
        let headers = headers_of(&self, default_headers_raw)?;
        let output = output_of(&self)?;
        let viewport = viewport_of(&self)?;
        let include_custom_properties = self.custom_props && !self.no_custom_props && !self.full;
        let stabilize = self.stabilize && !self.no_stabilize && !self.full;
        let categories = parse_categories(self.categories.as_str())?;
        let screenshot = self.screenshot.is_some();
        Ok(
            SniffConfig {
                url: self.url,
                selector,
                depth: self.depth,
                categories,
                custom_properties: self.props,
                pseudo_elements: self.pseudo,
                wait,
                filter: ElementFilter { visible: !self.no_visible, exclude_selectors: self.exclude },
                output,
                viewport,
                include_custom_properties,
                stable_key: self.stable_key,
                attributes: self.attrs,
                stabilize,
                ax_tree: self.ax_tree,
                actions,
                effects: self.effects && !self.no_effects,
                effects_limit: self.effects_limit,
                screenshot,
                screenshot_full_page: self.fullpage_screenshot,
                headers,
                storage_state_path: self.storage_state,
                save_storage_state: self.save_storage_state,
            },
        )
    }
}


/// Each output option follows its own flags: whatever else is given, a
/// built output configuration includes the rect exactly when `--no-rect`
/// is absent, the path when `--no-path` is absent, the metrics when
/// `--no-metrics` is absent, and likewise for the other switches; and the
/// output options are refused only for an unknown `--output` format
/// (neither `--summary` nor `--no-summary` given).
pub proof fn lemma_output_toggles(cli: Cli)
    ensures
        match output_for(cli) {
            Ok(o) => {
                &&& o.include_rect == !cli.no_rect
                &&& o.include_path == !cli.no_path
                &&& o.include_metrics == !cli.no_metrics
                &&& o.normalize_colors == !cli.no_normalize_colors
                &&& o.group_by_category == !cli.no_group
                &&& o.pretty == cli.pretty
                &&& o.include_visibility == !cli.no_visibility
                &&& o.include_style_hash == !cli.no_style_hash
                &&& o.include_aria == !cli.no_aria
                &&& o.compact == (cli.compact && !cli.no_compact && !cli.full)
                &&& o.include_contrast == (cli.contrast && !cli.no_contrast && !cli.full)
                &&& o.include_ax == ((cli.ax && !cli.no_ax && !cli.full) || cli.ax_tree)
                &&& cli.no_summary ==> o.format == OutputFormat::JsonLines
                &&& (!cli.no_summary && cli.summary) ==> o.format == OutputFormat::Summary
            },
            Err(_) => !cli.no_summary && !cli.summary,
        },
{
}

} // verus!
