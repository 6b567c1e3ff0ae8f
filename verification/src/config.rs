//! Configuration values that drive a sniffing run: viewport, output
//! format and options, readiness conditions, wait strategies and page
//! interactions, with the parsers for their command-line spellings.
use crate::error::{ErrorKind, SniffError};
use crate::action::Action;
use crate::properties::{category_named, parse_category_chars, StyleCategory};
use crate::wait::{default_pipeline_model, pipeline_model, WaitStrategy};
use crate::text::{
    chars_of, eq_str, find_char, find_first, lemma_deep_view_chars, lemma_find_first, split, split_char, lower_seq, lower_vec, parse_u32, parse_unsigned, push_str,
    slice_of, string_of, trim, trim_str, trim_vec,
};
use vstd::prelude::*;

verus! {

// ---------------------------------------------------------------------------
// Viewport
// ---------------------------------------------------------------------------

/// Emulated viewport dimensions.
#[derive(Debug, Clone, Copy, PartialEq, Eq, Structural)]
pub struct Viewport {
    pub width: u32,
    pub height: u32,
}

/// `before`, then `input` between backticks.
pub open spec fn quoted(before: Seq<char>, input: Seq<char>) -> Seq<char> {
    before + input + "`"@
}

/// What `Viewport::parse_cli` gives for `input`: a trimmed `WxH` (either
/// case of `x` splits), both sides positive decimal `u32`s; otherwise the
/// message of the first check that fails.
pub open spec fn viewport_parse(input: Seq<char>) -> Result<Viewport, Seq<char>> {
    let t = trim(input);
    match find_first(lower_seq(t), 'x') {
        None => Err(quoted("invalid viewport `"@, input)),
        Some(i) => {
            let w = parse_unsigned(trim(t.take(i)), u32::MAX as nat);
            let h = parse_unsigned(trim(t.skip(i + 1)), u32::MAX as nat);
            if w is None {
                Err(quoted("invalid viewport width `"@, input))
            } else if h is None {
                Err(quoted("invalid viewport height `"@, input))
            } else if w->0 == 0 || h->0 == 0 {
                Err(quoted("viewport must be non-zero `"@, input))
            } else {
                Ok(Viewport { width: w->0 as u32, height: h->0 as u32 })
            }
        },
    }
}

/// `before`, then `input` between backticks, as a new vector.
fn quoted_exec(before: &str, input: &str) -> (v: Vec<char>)
    ensures
        v@ == quoted(before@, input@),
{
    let mut v: Vec<char> = Vec::new();
    push_str(&mut v, before);
    push_str(&mut v, input);
    push_str(&mut v, "`");
    v
}

impl Viewport {
    /// Parse a `WxH` string (e.g. `1280x720`).
    pub fn parse_cli(input: &str) -> (r: Result<Viewport, SniffError>)
        ensures
            match r {
                Ok(v) => viewport_parse(input@) == Ok::<Viewport, Seq<char>>(v),
                Err(e) => e matches SniffError::InvalidOutputFormat(m) && viewport_parse(input@)
                    == Err::<Viewport, Seq<char>>(m@),
            },
    {
        let t = trim_str(input);
        let low = lower_vec(&t);
        match find_char(&low, 'x') {
            None => Err(SniffError::InvalidOutputFormat(string_of(quoted_exec("invalid viewport `", input)))),
            Some(i) => {
                proof {
                    lemma_find_first(low@, 'x');
                }
                assert(lower_seq(t@).len() == t@.len());
                let w = trim_vec(&slice_of(&t, 0, i));
                let h = trim_vec(&slice_of(&t, i + 1, t.len()));
                assert(t@.subrange(0, i as int) =~= t@.take(i as int));
                assert(t@.subrange(i + 1, t@.len() as int) =~= t@.skip(i + 1));
                let width = match parse_u32(&w) {
                    Some(x) => x,
                    None => {
                        return Err(
                            SniffError::InvalidOutputFormat(string_of(quoted_exec("invalid viewport width `", input))),
                        );
                    },
                };
                let height = match parse_u32(&h) {
                    Some(x) => x,
                    None => {
                        return Err(
                            SniffError::InvalidOutputFormat(string_of(quoted_exec("invalid viewport height `", input))),
                        );
                    },
                };
                if width == 0 || height == 0 {
                    return Err(
                        SniffError::InvalidOutputFormat(string_of(quoted_exec("viewport must be non-zero `", input))),
                    );
                }
                Ok(Viewport { width, height })
            },
        }
    }
}

// ---------------------------------------------------------------------------
// Output format and options
// ---------------------------------------------------------------------------

/// Supported output serialization formats.
#[derive(Debug, Clone, Copy, PartialEq, Eq, Structural)]
pub enum OutputFormat {
    /// One JSON object per line; each line is a matched root element with
    /// nested `children`.
    JsonLines,
    /// One JSON object per line, fully flat: every node is its own line
    /// with `id`/`parent_id` references.
    JsonLinesFlat,
    /// A single JSON array.
    Json,
    /// Token-lean per-node digest.
    Summary,
}

/// What `OutputFormat::parse_cli` gives for `input`: the trimmed,
/// ASCII-lowercased name looked up among the accepted spellings; an
/// unknown name is the error's payload.
pub open spec fn output_format_parse(input: Seq<char>) -> Result<OutputFormat, Seq<char>> {
    let n = lower_seq(trim(input));
    if n == "jsonl"@ || n == "ndjson"@ {
        Ok(OutputFormat::JsonLines)
    } else if n == "jsonl-flat"@ || n == "ndjson-flat"@ {
        Ok(OutputFormat::JsonLinesFlat)
    } else if n == "json"@ {
        Ok(OutputFormat::Json)
    } else if n == "summary"@ || n == "slim"@ {
        Ok(OutputFormat::Summary)
    } else {
        Err(n)
    }
}

impl OutputFormat {
    /// Parse a CLI value (`jsonl`, `jsonl-flat`, `json`, `summary`/`slim`).
    pub fn parse_cli(input: &str) -> (r: Result<OutputFormat, SniffError>)
        ensures
            match r {
                Ok(f) => output_format_parse(input@) == Ok::<OutputFormat, Seq<char>>(f),
                Err(e) => e matches SniffError::InvalidOutputFormat(m) && output_format_parse(
                    input@,
                ) == Err::<OutputFormat, Seq<char>>(m@),
            },
    {
        let n = lower_vec(&trim_str(input));
        if eq_str(&n, "jsonl") || eq_str(&n, "ndjson") {
            Ok(OutputFormat::JsonLines)
        } else if eq_str(&n, "jsonl-flat") || eq_str(&n, "ndjson-flat") {
            Ok(OutputFormat::JsonLinesFlat)
        } else if eq_str(&n, "json") {
            Ok(OutputFormat::Json)
        } else if eq_str(&n, "summary") || eq_str(&n, "slim") {
            Ok(OutputFormat::Summary)
        } else {
            Err(SniffError::InvalidOutputFormat(string_of(n)))
        }
    }

    /// The extension a persisted capture in this format gets: `json` for a
    /// single JSON array, `jsonl` for every line-oriented format.
    pub fn extension(&self) -> (r: &'static str)
        ensures
            r@ == (if *self == OutputFormat::Json {
                "json"@
            } else {
                "jsonl"@
            }),
    {
        match self {
            OutputFormat::Json => "json",
            _ => "jsonl",
        }
    }
}

/// Output shaping options.
#[derive(Debug, Clone, Copy, PartialEq, Eq, Structural)]
pub struct OutputConfig {
    /// Serialization format.
    pub format: OutputFormat,
    /// Include the bounding rect for each element.
    pub include_rect: bool,
    /// Include the DOM path for each element.
    pub include_path: bool,
    /// Include derived metrics (z-index, stacking context).
    pub include_metrics: bool,
    /// Normalize `rgb(...)` colors to hexadecimal.
    pub normalize_colors: bool,
    /// Group styles by category in the output object.
    pub group_by_category: bool,
    /// Pretty-print JSON (single JSON output only).
    pub pretty: bool,
    /// Drop redundant logical/default properties and scope custom
    /// properties to one global map plus per-node overrides.
    pub compact: bool,
    /// Emit `is_user_noticeable` per node.
    pub include_visibility: bool,
    /// Emit `computed_style_hash` per node.
    pub include_style_hash: bool,
    /// Emit a resolved `aria` facet per node.
    pub include_aria: bool,
    /// Derive and emit a measured WCAG `contrast` facet per node.
    pub include_contrast: bool,
    /// Capture the browser-computed accessibility-tree node per element.
    pub include_ax: bool,
    /// Emulated viewport recorded in the output's meta line.
    pub viewport: Option<Viewport>,
}

/// The default output options: JSON lines with every per-node facet on,
/// compact, not pretty-printed, no recorded viewport.
pub open spec fn default_output_config() -> OutputConfig {
    OutputConfig {
        format: OutputFormat::JsonLines,
        include_rect: true,
        include_path: true,
        include_metrics: true,
        normalize_colors: true,
        group_by_category: true,
        pretty: false,
        compact: true,
        include_visibility: true,
        include_style_hash: true,
        include_aria: true,
        include_contrast: true,
        include_ax: true,
        viewport: None,
    }
}

impl Default for OutputConfig {
    fn default() -> (c: OutputConfig)
        ensures
            c == default_output_config(),
    {
        OutputConfig {
            format: OutputFormat::JsonLines,
            include_rect: true,
            include_path: true,
            include_metrics: true,
            normalize_colors: true,
            group_by_category: true,
            pretty: false,
            compact: true,
            include_visibility: true,
            include_style_hash: true,
            include_aria: true,
            include_contrast: true,
            include_ax: true,
            viewport: None,
        }
    }
}

// ---------------------------------------------------------------------------
// Category lists
// ---------------------------------------------------------------------------

/// The categories named by comma-separated pieces, in order; empty
/// pieces are skipped and the first unknown (trimmed) piece is the error.
pub open spec fn categories_in(pieces: Seq<Seq<char>>) -> Result<Seq<StyleCategory>, Seq<char>>
    decreases pieces.len(),
{
    if pieces.len() == 0 {
        Ok(Seq::empty())
    } else {
        let t = trim(pieces[0]);
        if t.len() == 0 {
            categories_in(pieces.drop_first())
        } else {
            match category_named(t) {
                None => Err(t),
                Some(c) => match categories_in(pieces.drop_first()) {
                    Err(e) => Err(e),
                    Ok(rest) => Ok(seq![c] + rest),
                },
            }
        }
    }
}

/// What `parse_categories` gives for `input`: the named categories, at
/// least one; an unknown name, or a list that names none, is an
/// `UnknownCategory` error.
pub open spec fn categories_parse(input: Seq<char>) -> Result<
    Seq<StyleCategory>,
    (ErrorKind, Seq<char>),
> {
    match categories_in(split(input, ',')) {
        Err(p) => Err((ErrorKind::UnknownCategory, p)),
        Ok(cs) => if cs.len() == 0 {
            Err((ErrorKind::UnknownCategory, input))
        } else {
            Ok(cs)
        },
    }
}

/// Parse a comma-separated list of categories.
pub fn parse_categories(input: &str) -> (r: Result<Vec<StyleCategory>, SniffError>)
    ensures
        match r {
            Ok(cs) => categories_parse(input@) == Ok::<Seq<StyleCategory>, (ErrorKind, Seq<char>)>(
                cs@,
            ) && cs@.len() > 0,
            Err(e) => categories_parse(input@) == Err::<Seq<StyleCategory>, (ErrorKind, Seq<char>)>(
                e@,
            ),
        },
{
    let s = chars_of(input);
    let pieces = split_char(&s, ',');
    let ghost all = pieces.deep_view();
    let mut out: Vec<StyleCategory> = Vec::new();
    let mut i: usize = 0;
    assert(all.skip(0) =~= all);
    while i < pieces.len()
        invariant
            i <= pieces.len(),
            all == pieces.deep_view(),
            all == split(s@, ','),
            s@ == input@,
            categories_in(all) == (match categories_in(all.skip(i as int)) {
                Ok(rest) => Ok(out@ + rest),
                Err(e) => Err::<Seq<StyleCategory>, Seq<char>>(e),
            }),
        decreases pieces.len() - i,
    {
        let ghost rest = all.skip(i as int);
        assert(rest.drop_first() =~= all.skip(i + 1));
        proof {
            lemma_deep_view_chars(pieces@[i as int]);
        }
        assert(rest[0] == pieces@[i as int]@);
        let t = trim_vec(&pieces[i]);
        if t.len() > 0 {
            match parse_category_chars(&t) {
                None => {
                    assert(categories_in(rest) == Err::<Seq<StyleCategory>, Seq<char>>(t@));
                    return Err(SniffError::UnknownCategory(string_of(t)));
                },
                Some(c) => {
                    let ghost before = out@;
                    out.push(c);
                    proof {
                        match categories_in(all.skip(i + 1)) {
                            Ok(tail) => {
                                assert(before + (seq![c] + tail) =~= out@ + tail);
                            },
                            Err(_) => {},
                        }
                    }
                },
            }
        }
        i = i + 1;
    }
    assert(all.skip(pieces.len() as int) =~= Seq::<Seq<char>>::empty());
    assert(out@ + Seq::<StyleCategory>::empty() =~= out@);
    if out.len() == 0 {
        return Err(SniffError::UnknownCategory(String::from_str(input)));
    }
    Ok(out)
}

// ---------------------------------------------------------------------------
// The full run specification
// ---------------------------------------------------------------------------

/// Element filter applied after matching the selector. The minimum
/// width and height, which are floating-point, are applied by the
/// application around the library.
#[derive(Debug, Clone, PartialEq, Eq)]
pub struct ElementFilter {
    /// Keep only elements that are visible.
    pub visible: bool,
    /// Skip elements matching any of these selectors.
    pub exclude_selectors: Vec<String>,
}

impl Default for ElementFilter {
    fn default() -> (f: ElementFilter)
        ensures
            f.visible,
            f.exclude_selectors@.len() == 0,
    {
        ElementFilter { visible: true, exclude_selectors: Vec::new() }
    }
}

/// Full specification of a sniffing run.
#[derive(Debug, Clone, PartialEq, Eq)]
pub struct SniffConfig {
    /// URL to navigate to.
    pub url: String,
    /// CSS selector for the element(s) to sniff.
    pub selector: String,
    /// How many levels of children to include (0: the matched elements).
    pub depth: usize,
    /// Semantic categories to capture.
    pub categories: Vec<StyleCategory>,
    /// Extra property names requested on top of the categories.
    pub custom_properties: Vec<String>,
    /// Pseudo-elements to capture alongside the element.
    pub pseudo_elements: Vec<String>,
    /// Ordered list of wait strategies executed before extraction.
    pub wait: Vec<WaitStrategy>,
    /// Element filter applied to matched candidates.
    pub filter: ElementFilter,
    /// Output shaping options.
    pub output: OutputConfig,
    /// Emulated viewport size.
    pub viewport: Option<Viewport>,
    /// Capture all CSS custom properties (`--*`) per element.
    pub include_custom_properties: bool,
    /// Attribute preferred over the DOM `id` as the stable selector anchor.
    pub stable_key: Option<String>,
    /// Extra DOM attributes to capture verbatim per node.
    pub attributes: Vec<String>,
    /// Freeze animations and transitions before capture.
    pub stabilize: bool,
    /// Capture the full browser-computed accessibility subtree.
    pub ax_tree: bool,
    /// Ordered user interactions performed before extraction.
    pub actions: Vec<Action>,
    /// Map the UI effects of each action.
    pub effects: bool,
    /// Cap on the elements each action entry reports.
    pub effects_limit: usize,
    /// Capture a PNG of the page at the end of the pipeline.
    pub screenshot: bool,
    /// Capture the full scrollable document in the screenshot.
    pub screenshot_full_page: bool,
    /// Extra HTTP headers applied to every request of the session.
    pub headers: Vec<(String, String)>,
    /// Persisted session state restored before navigation.
    pub storage_state_path: Option<String>,
    /// Where the session state is written at the end of the pipeline.
    pub save_storage_state: Option<String>,
}

impl Default for SniffConfig {
    /// The AI-optimized defaults: every category, the default wait
    /// pipeline, a laptop-sized viewport, design tokens captured,
    /// animations frozen, action effects mapped (ten per action), no
    /// actions, no accessibility subtree document.
    fn default() -> (c: SniffConfig)
        ensures
            c.url@.len() == 0,
            c.selector@.len() == 0,
            c.depth == 0,
            c.categories@ == seq![StyleCategory::All],
            c.custom_properties@.len() == 0,
            c.pseudo_elements@.len() == 0,
            pipeline_model(c.wait@) == default_pipeline_model(Seq::empty()),
            c.filter.visible,
            c.filter.exclude_selectors@.len() == 0,
            c.output == default_output_config(),
            c.viewport == Some(Viewport { width: 1366, height: 768 }),
            c.include_custom_properties,
            c.stable_key is None,
            c.attributes@.len() == 0,
            c.stabilize,
            !c.ax_tree,
            c.actions@.len() == 0,
            c.effects,
            c.effects_limit == 10,
            !c.screenshot,
            !c.screenshot_full_page,
            c.headers@.len() == 0,
            c.storage_state_path is None,
            c.save_storage_state is None,
    {
        let mut categories: Vec<StyleCategory> = Vec::new();
        categories.push(StyleCategory::All);
        let wait = WaitStrategy::default_pipeline("");
        proof {
            reveal_strlit("");
            assert(""@ =~= Seq::<char>::empty());
        }
        SniffConfig {
            url: String::new(),
            selector: String::new(),
            depth: 0,
            categories,
            custom_properties: Vec::new(),
            pseudo_elements: Vec::new(),
            wait,
            filter: ElementFilter::default(),
            output: OutputConfig::default(),
            viewport: Some(Viewport { width: 1366, height: 768 }),
            include_custom_properties: true,
            stable_key: None,
            attributes: Vec::new(),
            stabilize: true,
            ax_tree: false,
            actions: Vec::new(),
            effects: true,
            effects_limit: 10,
            screenshot: false,
            screenshot_full_page: false,
            headers: Vec::new(),
            storage_state_path: None,
            save_storage_state: None,
        }
    }
}

} // verus!
