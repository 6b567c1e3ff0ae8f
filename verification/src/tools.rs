//! Arguments of the agent-facing tools: interaction inputs, the default
//! values of optional arguments, and the selection of listed snapshots.
use crate::action::{strings_model, Action, ActionModel};
use crate::cli::{actions_model, parse_waits, waits_for};
use crate::config::{
    categories_parse, output_format_parse, parse_categories, viewport_parse, ElementFilter,
    OutputConfig, OutputFormat, SniffConfig, Viewport,
};
use crate::error::{error_text, is_transport_error, kind_text, transport_failure, ErrorKind, SniffError};
use crate::properties::StyleCategory;
use crate::wait::{pipeline_model, WaitStrategy, WaitStrategyModel};
use crate::store::{newest_first_sorted, text_lt, ListSnapshotsRequest, SnapshotEntry};
use crate::text::{eq_str, push_str, string_of};
use vstd::prelude::*;

verus! {

/// A single user interaction (`click` | `hover` | `type`) run on the page
/// before capture.
#[derive(Debug, Clone, PartialEq, Eq)]
pub struct ActionInput {
    /// Action kind: `click`, `hover` or `type` (the `type` argument).
    pub action_type: String,
    /// CSS selector of the element to interact with.
    pub selector: String,
    /// Text to insert for `type` actions (required when `type`).
    pub text: Option<String>,
    /// Milliseconds to wait for the target to appear (default 10000).
    pub timeout_ms: Option<u64>,
    /// Milliseconds to settle after the action (default 150).
    pub settle_ms: Option<u64>,
}

pub open spec fn or_default(v: Option<u64>, d: u64) -> u64 {
    match v {
        Some(x) => x,
        None => d,
    }
}

/// The action an input describes, or the error's text.
pub open spec fn input_action(input: ActionInput) -> Result<ActionModel, Seq<char>> {
    let timeout_ms = or_default(input.timeout_ms, Action::DEFAULT_TIMEOUT_MS);
    let settle_ms = or_default(input.settle_ms, Action::DEFAULT_SETTLE_MS);
    let selector = input.selector@;
    let t = input.action_type@;
    if t == "click"@ {
        Ok(ActionModel::Click { selector, timeout_ms, settle_ms })
    } else if t == "hover"@ {
        Ok(ActionModel::Hover { selector, timeout_ms, settle_ms })
    } else if t == "type"@ {
        match input.text {
            Some(text) => Ok(ActionModel::Type { selector, text: text@, timeout_ms, settle_ms }),
            None => Err("type action requires `text`"@),
        }
    } else {
        Err("unknown action type `"@ + t + "` (expected click | hover | type)"@)
    }
}

/// Map a tool action input to an engine [`Action`].
pub fn action_from_input(input: &ActionInput) -> (r: Result<Action, String>)
    ensures
        match r {
            Ok(a) => input_action(*input) == Ok::<ActionModel, Seq<char>>(a@),
            Err(m) => input_action(*input) == Err::<ActionModel, Seq<char>>(m@),
        },
{
    let timeout_ms = match input.timeout_ms {
        Some(x) => x,
        None => Action::DEFAULT_TIMEOUT_MS,
    };
    let settle_ms = match input.settle_ms {
        Some(x) => x,
        None => Action::DEFAULT_SETTLE_MS,
    };
    let selector = input.selector.clone();
    let t = crate::text::chars_of(input.action_type.as_str());
    if eq_str(&t, "click") {
        Ok(Action::Click { selector, timeout_ms, settle_ms })
    } else if eq_str(&t, "hover") {
        Ok(Action::Hover { selector, timeout_ms, settle_ms })
    } else if eq_str(&t, "type") {
        match &input.text {
            Some(text) => Ok(Action::Type { selector, text: text.clone(), timeout_ms, settle_ms }),
            None => Err(String::from_str("type action requires `text`")),
        }
    } else {
        let mut m: Vec<char> = Vec::new();
        push_str(&mut m, "unknown action type `");
        push_str(&mut m, input.action_type.as_str());
        push_str(&mut m, "` (expected click | hover | type)");
        Err(string_of(m))
    }
}

/// Default categories argument: every category.
pub fn default_categories() -> (r: String)
    ensures
        r@ == "all"@,
{
    String::from_str("all")
}

/// Default for the switches that are on unless turned off.
pub fn default_true() -> (r: bool)
    ensures
        r,
{
    true
}

/// Default viewport argument: a laptop-sized `1366x768`.
pub fn default_viewport() -> (r: String)
    ensures
        r@ == "1366x768"@,
{
    String::from_str("1366x768")
}

/// Default output format argument: JSON lines.
pub fn default_format() -> (r: String)
    ensures
        r@ == "jsonl"@,
{
    String::from_str("jsonl")
}

/// Default return mode of a capture: the token-lean summary.
pub fn default_return_mode() -> (r: String)
    ensures
        r@ == "summary"@,
{
    String::from_str("summary")
}

// ---------------------------------------------------------------------------
// Listing persisted snapshots
// ---------------------------------------------------------------------------

/// Whether an entry passes the domain and target filters.
pub open spec fn entry_selected(e: SnapshotEntry, request: ListSnapshotsRequest) -> bool {
    &&& (match request.domain {
        Some(d) => e.domain@ == d@,
        None => true,
    })
    &&& (match request.target {
        Some(t) => e.target@ == t@,
        None => true,
    })
}

/// The entries that pass the filters, in order.
pub open spec fn selected_entries(es: Seq<SnapshotEntry>, request: ListSnapshotsRequest) -> Seq<
    SnapshotEntry,
>
    decreases es.len(),
{
    if es.len() == 0 {
        Seq::empty()
    } else {
        let rest = selected_entries(es.drop_last(), request);
        if entry_selected(es.last(), request) {
            rest.push(es.last())
        } else {
            rest
        }
    }
}

/// The listing a request asks for: the entries that pass its filters, in
/// their order (newest first), cut to its limit.
pub open spec fn listing(es: Seq<SnapshotEntry>, request: ListSnapshotsRequest) -> Seq<SnapshotEntry> {
    let kept = selected_entries(es, request);
    match request.limit {
        Some(n) => if n < kept.len() {
            kept.take(n as int)
        } else {
            kept
        },
        None => kept,
    }
}

fn matches_filter(value: &String, filter: &Option<String>) -> (r: bool)
    ensures
        r == (match *filter {
            Some(f) => value@ == f@,
            None => true,
        }),
{
    match filter {
        Some(f) => *value == *f,
        None => true,
    }
}

/// Apply a listing request to the store's entries (newest first).
pub fn select_snapshots(entries: Vec<SnapshotEntry>, request: &ListSnapshotsRequest) -> (r: Vec<
    SnapshotEntry,
>)
    ensures
        r@ == listing(entries@, *request),
{
    let ghost es = entries@;
    let mut entries = entries;
    let mut rev: Vec<SnapshotEntry> = Vec::new();
    let n = entries.len();
    let mut k: usize = 0;
    while k < n
        invariant
            k <= n,
            n == es.len(),
            entries@ == es.take((n - k) as int),
            rev@ == es.skip((n - k) as int).reverse(),
        decreases n - k,
    {
        let item = entries.pop().unwrap();
        rev.push(item);
        assert(entries@ =~= es.take((n - k - 1) as int));
        assert(rev@ =~= es.skip((n - k - 1) as int).reverse());
        k = k + 1;
    }
    let mut out: Vec<SnapshotEntry> = Vec::new();
    let mut j: usize = 0;
    while j < n
        invariant
            j <= n,
            n == es.len(),
            rev@ == es.skip(j as int).reverse(),
            out@ == selected_entries(es.take(j as int), *request),
        decreases n - j,
    {
        let item = rev.pop().unwrap();
        assert(rev@ =~= es.skip(j + 1).reverse());
        assert(item == es[j as int]);
        assert(es.take(j + 1).drop_last() =~= es.take(j as int));
        if matches_filter(&item.domain, &request.domain) && matches_filter(
            &item.target,
            &request.target,
        ) {
            out.push(item);
        }
        j = j + 1;
    }
    assert(es.take(n as int) =~= es);
    match request.limit {
        Some(limit) => {
            if limit < out.len() {
                out.truncate(limit);
            }
        },
        None => {},
    }
    out
}

// ---------------------------------------------------------------------------
// Capture requests
// ---------------------------------------------------------------------------

/// Arguments of the page-capture tool. The `min_width`/`min_height`
/// element-size filters take floating-point values and are not among
/// them.
#[derive(Debug, Clone, PartialEq, Eq)]
pub struct SniffPageRequest {
    pub url: String,
    pub selector: String,
    pub depth: usize,
    pub categories: String,
    pub compact: bool,
    pub custom_props: bool,
    pub stable_key: Option<String>,
    pub attributes: Vec<String>,
    pub pseudo: Vec<String>,
    pub wait: Vec<String>,
    pub actions: Vec<ActionInput>,
    pub effects: bool,
    pub effects_limit: Option<usize>,
    pub viewport: String,
    pub format: String,
    pub stabilize: bool,
    pub include_invisible: bool,
    pub exclude: Vec<String>,
    pub screenshot: bool,
    pub screenshot_full_page: bool,
    pub contrast: bool,
    pub include_ax: bool,
    pub ax_tree: bool,
    pub full: bool,
    pub persist: bool,
    pub return_mode: String,
}

/// The actions of the inputs, in order; the first that fails is the
/// error's text.
pub open spec fn inputs_actions(inputs: Seq<ActionInput>) -> Result<Seq<ActionModel>, Seq<char>>
    decreases inputs.len(),
{
    if inputs.len() == 0 {
        Ok(Seq::empty())
    } else {
        match input_action(inputs[0]) {
            Err(m) => Err(m),
            Ok(a) => match inputs_actions(inputs.drop_first()) {
                Err(m) => Err(m),
                Ok(rest) => Ok(seq![a] + rest),
            },
        }
    }
}

/// The output options of a capture request.
pub open spec fn request_output(req: SniffPageRequest, format: OutputFormat) -> OutputConfig {
    OutputConfig {
        format,
        include_rect: true,
        include_path: true,
        include_metrics: true,
        normalize_colors: true,
        group_by_category: true,
        pretty: false,
        compact: req.compact && !req.full,
        include_visibility: true,
        include_style_hash: true,
        include_aria: true,
        include_contrast: req.contrast && !req.full,
        include_ax: (req.include_ax && !req.full) || req.ax_tree,
        viewport: None,
    }
}

/// The first error text of a capture request, in the order its
/// arguments are read: waits, categories, format, viewport, actions.
pub open spec fn request_error(req: SniffPageRequest) -> Option<Seq<char>> {
    match waits_for(strings_model(req.wait@), req.selector@) {
        Err(e) => Some(kind_text(e.0, e.1)),
        Ok(_) => match categories_parse(req.categories@) {
            Err(e) => Some(kind_text(e.0, e.1)),
            Ok(_) => match output_format_parse(req.format@) {
                Err(m) => Some(kind_text(ErrorKind::InvalidOutputFormat, m)),
                Ok(_) => match viewport_parse(req.viewport@) {
                    Err(m) => Some(kind_text(ErrorKind::InvalidOutputFormat, m)),
                    Ok(_) => match inputs_actions(req.actions@) {
                        Err(m) => Some(m),
                        Ok(_) => None,
                    },
                },
            },
        },
    }
}

fn clone_strings(v: &Vec<String>) -> (r: Vec<String>)
    ensures
        r@ == v@,
{
    let mut out: Vec<String> = Vec::new();
    let mut i: usize = 0;
    while i < v.len()
        invariant
            i <= v.len(),
            out@ == v@.take(i as int),
        decreases v.len() - i,
    {
        out.push(v[i].clone());
        assert(out@ =~= v@.take(i + 1));
        i = i + 1;
    }
    assert(v@.take(v.len() as int) =~= v@);
    out
}

fn actions_of_inputs(inputs: &Vec<ActionInput>) -> (r: Result<Vec<Action>, String>)
    ensures
        match r {
            Ok(v) => inputs_actions(inputs@) == Ok::<Seq<ActionModel>, Seq<char>>(actions_model(v@)),
            Err(m) => inputs_actions(inputs@) == Err::<Seq<ActionModel>, Seq<char>>(m@),
        },
{
    let ghost all = inputs@;
    let mut out: Vec<Action> = Vec::new();
    let mut i: usize = 0;
    assert(all.skip(0) =~= all);
    while i < inputs.len()
        invariant
            i <= inputs.len(),
            all == inputs@,
            inputs_actions(all) == (match inputs_actions(all.skip(i as int)) {
                Ok(rest) => Ok(actions_model(out@) + rest),
                Err(m) => Err::<Seq<ActionModel>, Seq<char>>(m),
            }),
        decreases inputs.len() - i,
    {
        assert(all.skip(i as int).drop_first() =~= all.skip(i + 1));
        assert(all.skip(i as int)[0] == inputs@[i as int]);
        match action_from_input(&inputs[i]) {
            Err(m) => {
                return Err(m);
            },
            Ok(a) => {
                let ghost before = actions_model(out@);
                out.push(a);
                assert(actions_model(out@) =~= before.push(a@));
                proof {
                    match inputs_actions(all.skip(i + 1)) {
                        Ok(tail) => {
                            assert(before + (seq![a@] + tail) =~= actions_model(out@) + tail);
                        },
                        Err(_) => {},
                    }
                }
            },
        }
        i = i + 1;
    }
    assert(all.skip(inputs.len() as int) =~= Seq::<ActionInput>::empty());
    assert(actions_model(out@) + Seq::<ActionModel>::empty() =~= actions_model(out@));
    Ok(out)
}

/// Map capture-tool arguments to a full run configuration.
pub fn build_sniff_config(request: &SniffPageRequest) -> (r: Result<SniffConfig, String>)
    ensures
        match r {
            Err(m) => request_error(*request) == Some(m@),
            Ok(c) => {
                &&& request_error(*request) is None
                &&& c.url@ == request.url@
                &&& c.selector@ == request.selector@
                &&& c.depth == request.depth
                &&& categories_parse(request.categories@) == Ok::<
                    Seq<StyleCategory>,
                    (ErrorKind, Seq<char>),
                >(c.categories@)
                &&& c.custom_properties@.len() == 0
                &&& c.pseudo_elements@ == request.pseudo@
                &&& waits_for(strings_model(request.wait@), request.selector@) == Ok::<
                    Seq<WaitStrategyModel>,
                    (ErrorKind, Seq<char>),
                >(pipeline_model(c.wait@))
                &&& c.filter.visible == !request.include_invisible
                &&& c.filter.exclude_selectors@ == request.exclude@
                &&& output_format_parse(request.format@) == Ok::<OutputFormat, Seq<char>>(
                    c.output.format,
                )
                &&& c.output == request_output(*request, c.output.format)
                &&& c.viewport is Some
                &&& viewport_parse(request.viewport@) == Ok::<Viewport, Seq<char>>(c.viewport->0)
                &&& c.include_custom_properties == (request.custom_props && !request.full)
                &&& c.stable_key == request.stable_key
                &&& c.attributes@ == request.attributes@
                &&& c.stabilize == (request.stabilize && !request.full)
                &&& c.ax_tree == request.ax_tree
                &&& inputs_actions(request.actions@) == Ok::<Seq<ActionModel>, Seq<char>>(
                    actions_model(c.actions@),
                )
                &&& c.effects == request.effects
                &&& c.effects_limit == (match request.effects_limit {
                    Some(n) => n,
                    None => 10,
                })
                &&& c.screenshot == request.screenshot
                &&& c.screenshot_full_page == request.screenshot_full_page
                &&& c.headers@.len() == 0
                &&& c.storage_state_path is None
                &&& c.save_storage_state is None
            },
        },
{
    let wait = if request.wait.len() == 0 {
        WaitStrategy::default_pipeline(request.selector.as_str())
    } else {
        match parse_waits(&request.wait) {
            Ok(w) => w,
            Err(e) => {
                return Err(e.message());
            },
        }
    };
    let categories = match parse_categories(request.categories.as_str()) {
        Ok(c) => c,
        Err(e) => {
            return Err(e.message());
        },
    };
    let format = match OutputFormat::parse_cli(request.format.as_str()) {
        Ok(f) => f,
        Err(e) => {
            return Err(e.message());
        },
    };
    let viewport = match Viewport::parse_cli(request.viewport.as_str()) {
        Ok(v) => v,
        Err(e) => {
            return Err(e.message());
        },
    };
    let actions = actions_of_inputs(&request.actions)?;
    let stable_key = match &request.stable_key {
        Some(k) => Some(k.clone()),
        None => None,
    };
    let effects_limit = match request.effects_limit {
        Some(n) => n,
        None => 10,
    };
    Ok(
        SniffConfig {
            url: request.url.clone(),
            selector: request.selector.clone(),
            depth: request.depth,
            categories,
            custom_properties: Vec::new(),
            pseudo_elements: clone_strings(&request.pseudo),
            wait,
            filter: ElementFilter {
                visible: !request.include_invisible,
                exclude_selectors: clone_strings(&request.exclude),
            },
            output: OutputConfig {
                format,
                include_rect: true,
                include_path: true,
                include_metrics: true,
                normalize_colors: true,
                group_by_category: true,
                pretty: false,
                compact: request.compact && !request.full,
                include_visibility: true,
                include_style_hash: true,
                include_aria: true,
                include_contrast: request.contrast && !request.full,
                include_ax: (request.include_ax && !request.full) || request.ax_tree,
                viewport: None,
            },
            viewport: Some(viewport),
            include_custom_properties: request.custom_props && !request.full,
            stable_key,
            attributes: clone_strings(&request.attributes),
            stabilize: request.stabilize && !request.full,
            ax_tree: request.ax_tree,
            actions,
            effects: request.effects,
            effects_limit,
            screenshot: request.screenshot,
            screenshot_full_page: request.screenshot_full_page,
            headers: Vec::new(),
            storage_state_path: None,
            save_storage_state: None,
        },
    )
}

/// What a capture replies with.
#[derive(Debug, Clone, Copy, PartialEq, Eq, Structural)]
pub enum PageReply {
    /// Only a small handle naming the persisted snapshot.
    Reference,
    /// The token-lean per-node summary digest.
    Summary,
    /// The full snapshot inline.
    Jsonl,
}

/// The reply a `return` mode asks for: `reference` (which needs the
/// snapshot persisted), `summary`, or anything else for the full JSON
/// lines.
pub open spec fn page_reply_spec(return_mode: Seq<char>, persisted: bool) -> Result<PageReply, Seq<char>> {
    if return_mode == "reference"@ {
        if persisted {
            Ok(PageReply::Reference)
        } else {
            Err("return=reference requires persist:true"@)
        }
    } else if return_mode == "summary"@ {
        Ok(PageReply::Summary)
    } else {
        Ok(PageReply::Jsonl)
    }
}

/// The reply of a capture with `return_mode`, given whether the snapshot
/// was persisted.
pub fn page_reply(return_mode: &str, persisted: bool) -> (r: Result<PageReply, String>)
    ensures
        match r {
            Ok(p) => page_reply_spec(return_mode@, persisted) == Ok::<PageReply, Seq<char>>(p),
            Err(m) => page_reply_spec(return_mode@, persisted) == Err::<PageReply, Seq<char>>(m@),
        },
{
    let t = crate::text::chars_of(return_mode);
    if eq_str(&t, "reference") {
        if persisted {
            Ok(PageReply::Reference)
        } else {
            Err(String::from_str("return=reference requires persist:true"))
        }
    } else if eq_str(&t, "summary") {
        Ok(PageReply::Summary)
    } else {
        Ok(PageReply::Jsonl)
    }
}

/// How a failed capture is answered to the tool caller.
#[derive(Debug, Clone, Copy, PartialEq, Eq, Structural)]
pub enum ToolErrorKind {
    /// The caller's arguments were wrong (nothing matched the selector).
    InvalidParams,
    /// The capture itself failed.
    Internal,
}

/// The answer to a failed capture: an unmatched selector is the caller's
/// error, named with its selector; anything else is internal, with the
/// error's own text.
pub fn tool_error(e: &SniffError) -> (r: (ToolErrorKind, String))
    ensures
        e@.0 == ErrorKind::NoMatch ==> r.0 == ToolErrorKind::InvalidParams && r.1@ == "no element matched selector `"@
            + e@.1 + "`"@,
        e@.0 != ErrorKind::NoMatch ==> r.0 == ToolErrorKind::Internal && r.1@ == error_text(*e),
{
    match e {
        SniffError::NoMatch { selector } => {
            let mut v = crate::text::chars_of("no element matched selector `");
            push_str(&mut v, selector.as_str());
            push_str(&mut v, "`");
            (ToolErrorKind::InvalidParams, string_of(v))
        },
        _ => (ToolErrorKind::Internal, e.message()),
    }
}

proof fn lemma_selected_members(es: Seq<SnapshotEntry>, request: ListSnapshotsRequest)
    ensures
        forall|i: int|
            0 <= i < selected_entries(es, request).len() ==> exists|k: int|
                0 <= k < es.len() && #[trigger] selected_entries(es, request)[i] == es[k],
    decreases es.len(),
{
    if es.len() > 0 {
        lemma_selected_members(es.drop_last(), request);
        let rest = selected_entries(es.drop_last(), request);
        assert forall|i: int| 0 <= i < selected_entries(es, request).len() implies exists|k: int|
            0 <= k < es.len() && #[trigger] selected_entries(es, request)[i] == es[k] by {
            if i < rest.len() {
                assert(rest[i] == selected_entries(es.drop_last(), request)[i]);
                let k = choose|k: int| 0 <= k < es.drop_last().len() && rest[i] == es.drop_last()[k];
                assert(selected_entries(es, request)[i] == rest[i]);
                assert(es.drop_last()[k] == es[k]);
            } else {
                assert(selected_entries(es, request)[i] == es[es.len() - 1]);
            }
        }
    }
}

#[verifier::spinoff_prover]
proof fn lemma_selected_sorted(es: Seq<SnapshotEntry>, request: ListSnapshotsRequest)
    requires
        newest_first_sorted(es),
    ensures
        newest_first_sorted(selected_entries(es, request)),
    decreases es.len(),
{
    if es.len() > 0 {
        let rest = selected_entries(es.drop_last(), request);
        assert(newest_first_sorted(es.drop_last())) by {
            assert forall|i: int, j: int| 0 <= i < j < es.drop_last().len() implies !text_lt(
                #[trigger] es.drop_last()[i].created_at@,
                #[trigger] es.drop_last()[j].created_at@,
            ) by {
                assert(es.drop_last()[i] == es[i] && es.drop_last()[j] == es[j]);
            }
        }
        lemma_selected_sorted(es.drop_last(), request);
        lemma_selected_members(es.drop_last(), request);
        if entry_selected(es.last(), request) {
            let sel = rest.push(es.last());
            assert forall|i: int, j: int| 0 <= i < j < sel.len() implies !text_lt(
                #[trigger] sel[i].created_at@,
                #[trigger] sel[j].created_at@,
            ) by {
                if j == rest.len() {
                    assert(sel[i] == rest[i]);
                    let k = choose|k: int| 0 <= k < es.drop_last().len() && #[trigger] rest[i] == es.drop_last()[k];
                    assert(es.drop_last()[k] == es[k]);
                    assert(sel[j] == es[es.len() - 1]);
                    assert(0 <= k < es.len() - 1);
                    assert(!text_lt(es[k].created_at@, es[es.len() - 1].created_at@));
                } else {
                    assert(sel[i] == rest[i] && sel[j] == rest[j]);
                }
            }
        }
    }
}

/// A listing drawn from entries ordered newest first keeps the most
/// recent matching snapshots: it is itself newest first, a prefix of the
/// matching entries, and no matching entry it leaves out is newer than
/// one it keeps.
pub proof fn lemma_listing_keeps_newest(es: Seq<SnapshotEntry>, request: ListSnapshotsRequest)
    requires
        newest_first_sorted(es),
    ensures
        newest_first_sorted(listing(es, request)),
        listing(es, request).is_prefix_of(selected_entries(es, request)),
        forall|i: int, j: int|
            0 <= i < listing(es, request).len() <= j < selected_entries(es, request).len() ==> !text_lt(
                #[trigger] listing(es, request)[i].created_at@,
                #[trigger] selected_entries(es, request)[j].created_at@,
            ),
{
    lemma_selected_sorted(es, request);
    let sel = selected_entries(es, request);
    let l = listing(es, request);
    assert(l =~= sel.take(l.len() as int));
    assert forall|i: int, j: int| 0 <= i < j < l.len() implies !text_lt(
        #[trigger] l[i].created_at@,
        #[trigger] l[j].created_at@,
    ) by {
        assert(l[i] == sel[i] && l[j] == sel[j]);
    }
    assert forall|i: int, j: int| 0 <= i < l.len() <= j < sel.len() implies !text_lt(
        #[trigger] l[i].created_at@,
        #[trigger] sel[j].created_at@,
    ) by {
        assert(l[i] == sel[i]);
    }
}

/// What the browser pool does after a capture attempt failed.
#[derive(Debug, Clone, Copy, PartialEq, Eq, Structural)]
pub enum PoolStep {
    /// Relaunch the browser and run the capture once more.
    RelaunchAndRetry,
    /// Hand the error to the caller.
    Fail,
}

/// After a failed attempt: a lost browser connection on the first attempt
/// is worth one relaunch and retry; any other failure, and any failure of
/// the retry, goes to the caller.
pub fn after_failed_attempt(e: &SniffError, retried: bool) -> (r: PoolStep)
    ensures
        r == (if !retried && transport_failure(*e) {
            PoolStep::RelaunchAndRetry
        } else {
            PoolStep::Fail
        }),
{
    if !retried && is_transport_error(e) {
        PoolStep::RelaunchAndRetry
    } else {
        PoolStep::Fail
    }
}

} // verus!
