//! Per-node structural rules over captured computed styles.
//!
//! Each rule reads a node's tag, its accessibility flags and its style
//! values (grouped by category, e.g. `layout.position`) and emits at most
//! one check line. Rules that depend on positioning across the tree read
//! the [`AncestorContext`] resolved once per node on the way down.
use crate::rules::{CheckLine, RuleStatus};
use crate::text::{opt_chars, opt_view, chars_of, eq_str, find_str, find_sub, is_digit, push_all, push_str, seq_eq, string_of};
use vstd::prelude::*;

verus! {

/// One computed style value: `category.property = value`.
#[derive(Debug, Clone)]
pub struct StyleEntry {
    pub category: String,
    pub property: String,
    pub value: String,
}

/// What the per-node rules read of a captured element.
#[derive(Debug, Clone)]
pub struct NodeFacts {
    pub selector: String,
    pub tag: Option<String>,
    /// `display_visible`, `true` when not captured.
    pub visible: bool,
    /// Keyboard-focusable (from the aria facet, else the AX facet).
    pub focusable: bool,
    /// Renders direct text.
    pub has_text: bool,
    /// Has a non-empty accessible name.
    pub has_name: bool,
    /// `aria-hidden="true"`.
    pub aria_hidden: bool,
    /// Not exposed to assistive technology (accessibility grade `NONE`).
    pub ax_hidden: bool,
    /// String-valued computed styles, at most one entry per
    /// category/property pair.
    pub styles: Vec<StyleEntry>,
    /// `metrics.z_index` when captured as a string.
    pub metrics_z_index: Option<String>,
}

/// Ancestor-derived predicates resolved once per node.
#[derive(Debug, Clone, Copy, PartialEq, Eq)]
pub struct AncestorContext {
    /// Some ancestor clips overflow (breaks `position:sticky`).
    pub overflow_clipping: bool,
    /// Some ancestor is transformed/filtered (re-anchors `position:fixed`).
    pub transformed: bool,
    /// The direct parent is a flex or grid container.
    pub parent_flex_or_grid: bool,
}

impl AncestorContext {
    /// The context of a root node: no ancestor at all.
    pub fn root() -> (c: AncestorContext)
        ensures
            !c.overflow_clipping,
            !c.transformed,
            !c.parent_flex_or_grid,
    {
        AncestorContext { overflow_clipping: false, transformed: false, parent_flex_or_grid: false }
    }
}

// ---------------------------------------------------------------------------
// Style lookup
// ---------------------------------------------------------------------------

/// The value of the first entry at or after `i` for `cat.prop`.
pub open spec fn style_from(styles: Seq<StyleEntry>, cat: Seq<char>, prop: Seq<char>, i: int) -> Option<Seq<char>>
    decreases styles.len() - i,
{
    if i < 0 || i >= styles.len() {
        None
    } else if styles[i].category@ == cat && styles[i].property@ == prop {
        Some(styles[i].value@)
    } else {
        style_from(styles, cat, prop, i + 1)
    }
}

/// The node's value for `cat.prop`, if captured.
pub open spec fn style(n: NodeFacts, cat: Seq<char>, prop: Seq<char>) -> Option<Seq<char>> {
    style_from(n.styles@, cat, prop, 0)
}

/// A style value, or the empty text when absent.
pub open spec fn or_empty(v: Option<Seq<char>>) -> Seq<char> {
    match v {
        Some(s) => s,
        None => Seq::empty(),
    }
}

/// The node's tag, or the empty text when unknown.
pub open spec fn tag_of(n: NodeFacts) -> Seq<char> {
    or_empty(opt_view(n.tag))
}

/// Reads a style value from a category group (e.g. `visual.color`).
pub fn style_value(node: &NodeFacts, cat: &str, prop: &str) -> (r: Option<Vec<char>>)
    ensures
        opt_chars(r) == style(*node, cat@, prop@),
{
    let c = chars_of(cat);
    let p = chars_of(prop);
    let mut i: usize = 0;
    while i < node.styles.len()
        invariant
            i <= node.styles.len(),
            c@ == cat@,
            p@ == prop@,
            style_from(node.styles@, cat@, prop@, 0) == style_from(node.styles@, cat@, prop@, i as int),
        decreases node.styles.len() - i,
    {
        let e = &node.styles[i];
        let ec = chars_of(e.category.as_str());
        let ep = chars_of(e.property.as_str());
        if seq_eq(&ec, &c) && seq_eq(&ep, &p) {
            return Some(chars_of(e.value.as_str()));
        }
        i = i + 1;
    }
    None
}

/// Whether a looked-up value is present and equal to `lit`.
pub fn value_is(v: &Option<Vec<char>>, lit: &str) -> (r: bool)
    ensures
        r == (opt_chars(*v) == Some(lit@)),
{
    match v {
        Some(s) => eq_str(s, lit),
        None => false,
    }
}

/// The node's tag as characters (empty when unknown).
pub fn tag_chars(node: &NodeFacts) -> (t: Vec<char>)
    ensures
        t@ == tag_of(*node),
{
    match &node.tag {
        Some(s) => chars_of(s.as_str()),
        None => Vec::new(),
    }
}

// ---------------------------------------------------------------------------
// Tag classes
// ---------------------------------------------------------------------------

/// Tags that typically render visible text.
pub open spec fn is_text_tag(t: Seq<char>) -> bool {
    ||| t == "P"@ ||| t == "SPAN"@ ||| t == "LABEL"@ ||| t == "LI"@ ||| t == "TD"@
    ||| t == "TH"@ ||| t == "DT"@ ||| t == "DD"@ ||| t == "H1"@ ||| t == "H2"@
    ||| t == "H3"@ ||| t == "H4"@ ||| t == "H5"@ ||| t == "H6"@ ||| t == "A"@
    ||| t == "BUTTON"@ ||| t == "Q"@ ||| t == "BLOCKQUOTE"@ ||| t == "PRE"@ ||| t == "CODE"@
    ||| t == "SMALL"@ ||| t == "STRONG"@ ||| t == "EM"@ ||| t == "B"@ ||| t == "I"@
    ||| t == "U"@ ||| t == "SUMMARY"@ ||| t == "LEGEND"@ ||| t == "CAPTION"@
    ||| t == "FIGCAPTION"@ ||| t == "OPTION"@
}

/// Interactive tags whose tap/click target must meet the 24x24 minimum.
pub open spec fn is_interactive_tag(t: Seq<char>) -> bool {
    ||| t == "BUTTON"@
    ||| t == "INPUT"@
    ||| t == "SELECT"@
    ||| t == "TEXTAREA"@
    ||| t == "SUMMARY"@
}

/// Whether `t` is one of the text-bearing tags.
pub fn text_tag(t: &Vec<char>) -> (r: bool)
    ensures
        r == is_text_tag(t@),
{
    eq_str(t, "P") || eq_str(t, "SPAN") || eq_str(t, "LABEL") || eq_str(t, "LI") || eq_str(t, "TD")
        || eq_str(t, "TH") || eq_str(t, "DT") || eq_str(t, "DD") || eq_str(t, "H1") || eq_str(t, "H2")
        || eq_str(t, "H3") || eq_str(t, "H4") || eq_str(t, "H5") || eq_str(t, "H6") || eq_str(t, "A")
        || eq_str(t, "BUTTON") || eq_str(t, "Q") || eq_str(t, "BLOCKQUOTE") || eq_str(t, "PRE")
        || eq_str(t, "CODE") || eq_str(t, "SMALL") || eq_str(t, "STRONG") || eq_str(t, "EM")
        || eq_str(t, "B") || eq_str(t, "I") || eq_str(t, "U") || eq_str(t, "SUMMARY")
        || eq_str(t, "LEGEND") || eq_str(t, "CAPTION") || eq_str(t, "FIGCAPTION")
        || eq_str(t, "OPTION")
}

/// Whether `t` is one of the interactive tags.
pub fn interactive_tag(t: &Vec<char>) -> (r: bool)
    ensures
        r == is_interactive_tag(t@),
{
    eq_str(t, "BUTTON") || eq_str(t, "INPUT") || eq_str(t, "SELECT") || eq_str(t, "TEXTAREA")
        || eq_str(t, "SUMMARY")
}

/// Text-bearing heuristic: renders direct text, has an accessible name, or
/// is a typical text tag.
pub open spec fn is_text(n: NodeFacts) -> bool {
    n.has_name || n.has_text || is_text_tag(tag_of(n))
}

/// Whether the node counts as text-bearing.
pub fn text_bearing(node: &NodeFacts) -> (r: bool)
    ensures
        r == is_text(*node),
{
    let t = tag_chars(node);
    node.has_name || node.has_text || text_tag(&t)
}

// ---------------------------------------------------------------------------
// Ancestor context
// ---------------------------------------------------------------------------

/// A present overflow value other than `visible`/`clip`.
pub open spec fn clips(v: Option<Seq<char>>) -> bool {
    match v {
        Some(s) => s != "visible"@ && s != "clip"@,
        None => false,
    }
}

/// A present value other than `none` (or `auto` for `will-change`).
pub open spec fn set_other_than(v: Option<Seq<char>>, unset: Seq<char>) -> bool {
    match v {
        Some(s) => s != unset,
        None => false,
    }
}

/// A present value that mentions `paint`.
pub open spec fn mentions_paint(v: Option<Seq<char>>) -> bool {
    match v {
        Some(s) => find_sub(s, "paint"@) is Some,
        None => false,
    }
}

/// The node itself clips overflow.
pub open spec fn clips_overflow(n: NodeFacts) -> bool {
    clips(style(n, "box_model"@, "overflow-x"@)) || clips(style(n, "box_model"@, "overflow-y"@))
}

/// The node itself is transformed, filtered or paint-contained.
pub open spec fn is_transformed(n: NodeFacts) -> bool {
    ||| set_other_than(style(n, "transform"@, "transform"@), "none"@)
    ||| set_other_than(style(n, "transform"@, "perspective"@), "none"@)
    ||| set_other_than(style(n, "visual"@, "filter"@), "none"@)
    ||| set_other_than(style(n, "visual"@, "will-change"@), "auto"@)
    ||| mentions_paint(style(n, "layout"@, "contain"@))
}

/// The node is a flex or grid container.
pub open spec fn is_flex_or_grid(n: NodeFacts) -> bool {
    let d = style(n, "layout"@, "display"@);
    d == Some("flex"@) || d == Some("inline-flex"@) || d == Some("grid"@) || d == Some("inline-grid"@)
}

/// The context handed to the children of `n`, whose own context is
/// `parent`.
pub open spec fn child_context(n: NodeFacts, parent: AncestorContext) -> AncestorContext {
    AncestorContext {
        overflow_clipping: parent.overflow_clipping || clips_overflow(n),
        transformed: parent.transformed || is_transformed(n),
        parent_flex_or_grid: is_flex_or_grid(n),
    }
}

fn clips_exec(v: &Option<Vec<char>>) -> (r: bool)
    ensures
        r == clips(opt_chars(*v)),
{
    match v {
        Some(s) => !eq_str(s, "visible") && !eq_str(s, "clip"),
        None => false,
    }
}

fn set_other_than_exec(v: &Option<Vec<char>>, unset: &str) -> (r: bool)
    ensures
        r == set_other_than(opt_chars(*v), unset@),
{
    match v {
        Some(s) => !eq_str(s, unset),
        None => false,
    }
}

/// Resolves the ancestor predicates for the children of `node`.
pub fn child_context_of(node: &NodeFacts, parent: &AncestorContext) -> (c: AncestorContext)
    ensures
        c == child_context(*node, *parent),
{
    let ox = style_value(node, "box_model", "overflow-x");
    let oy = style_value(node, "box_model", "overflow-y");
    let overflow = clips_exec(&ox) || clips_exec(&oy);
    let tf = style_value(node, "transform", "transform");
    let pe = style_value(node, "transform", "perspective");
    let fi = style_value(node, "visual", "filter");
    let wc = style_value(node, "visual", "will-change");
    let ct = style_value(node, "layout", "contain");
    let paint = match &ct {
        Some(s) => find_str(s, "paint").is_some(),
        None => false,
    };
    let transform = set_other_than_exec(&tf, "none") || set_other_than_exec(&pe, "none")
        || set_other_than_exec(&fi, "none") || set_other_than_exec(&wc, "auto") || paint;
    let display = style_value(node, "layout", "display");
    let flex = value_is(&display, "flex") || value_is(&display, "inline-flex")
        || value_is(&display, "grid") || value_is(&display, "inline-grid");
    AncestorContext {
        overflow_clipping: parent.overflow_clipping || overflow,
        transformed: parent.transformed || transform,
        parent_flex_or_grid: flex,
    }
}

/// Element has `opacity:0` (carousel slides, off-screen panels).
pub open spec fn opacity_zero(n: NodeFacts) -> bool {
    let o = style(n, "visual"@, "opacity"@);
    o == Some("0"@) || o == Some("0.0"@)
}

/// Whether the element is visually hidden by `opacity:0`.
pub fn is_opaque_zero(node: &NodeFacts) -> (r: bool)
    ensures
        r == opacity_zero(*node),
{
    let o = style_value(node, "visual", "opacity");
    value_is(&o, "0") || value_is(&o, "0.0")
}

// ---------------------------------------------------------------------------
// Emitted lines
// ---------------------------------------------------------------------------

/// The line a rule emits for `n`: the node's own selector and tag.
pub open spec fn line_of(n: NodeFacts, check: Seq<char>, status: RuleStatus, evidence: Seq<char>) -> (
    Seq<char>,
    Seq<char>,
    Option<Seq<char>>,
    RuleStatus,
    Seq<char>,
) {
    (check, n.selector@, opt_view(n.tag), status, evidence)
}

fn emit(node: &NodeFacts, check: &str, status: RuleStatus, evidence: String) -> (l: CheckLine)
    ensures
        l@ == line_of(*node, check@, status, evidence@),
{
    let tag = match &node.tag {
        Some(t) => Some(t.clone()),
        None => None,
    };
    CheckLine { check: check.to_owned(), selector: node.selector.clone(), tag, status, evidence }
}

/// Evidence of `focus-indicator`.
pub const FOCUS_EVIDENCE: &'static str = "focusable element suppresses the outline and has no box-shadow";

/// Evidence of `hidden-focusable`.
pub const HIDDEN_FOCUSABLE_EVIDENCE: &'static str = "focusable element is not exposed to assistive tech (tab trap)";

/// Evidence of `sticky-in-overflow-hidden`.
pub const STICKY_EVIDENCE: &'static str = "position:sticky inside an overflow:hidden/auto/scroll ancestor — the stickiness never engages";

/// Evidence of `fixed-broken-by-transform`.
pub const FIXED_EVIDENCE: &'static str = "position:fixed inside a transformed/filtered ancestor — the element is positioned relative to that ancestor, not the viewport";

/// Evidence of `absolute-without-insets`.
pub const ABSOLUTE_EVIDENCE: &'static str = "position:absolute with no top/right/bottom/left — the element stays at its static position (a common dropdown/overlay bug)";

/// Evidence of `aria-hidden-focusable`.
pub const ARIA_HIDDEN_EVIDENCE: &'static str = "aria-hidden=\"true\" on a focusable element — keyboard focus lands on invisible content (WCAG 4.1.2)";

/// Evidence of `ellipsis-without-clip`.
pub const ELLIPSIS_EVIDENCE: &'static str = "text-overflow:ellipsis needs overflow:hidden (and usually white-space:nowrap) to take effect";

/// Evidence of `width-100-with-padding`.
pub const WIDTH_EVIDENCE: &'static str = "width:100% with box-sizing:content-box and padding overflows its container — use box-sizing:border-box";

/// Evidence of `text-not-selectable`.
pub const SELECT_EVIDENCE: &'static str = "user-select:none on body text prevents users from selecting/copying content";

/// Evidence of `transition-all`.
pub const TRANSITION_EVIDENCE: &'static str = "transition-property:all animates every property (layout+repaint) — list the specific properties instead";

/// Evidence of `overflow-x-hidden-on-body`.
pub const BODY_OVERFLOW_EVIDENCE: &'static str = "overflow-x:hidden on the document masks horizontal overflow — find and fix the overflowing element instead";

/// What a rule returns for `n`: the line when the rule fires, else nothing.
pub open spec fn emitted(r: Option<CheckLine>, fires: bool, n: NodeFacts, check: Seq<char>, status: RuleStatus, evidence: Seq<char>) -> bool {
    &&& r.is_some() == fires
    &&& (r matches Some(l) ==> l@ == line_of(n, check, status, evidence))
}

// ---------------------------------------------------------------------------
// Rules
// ---------------------------------------------------------------------------

/// Focusable and visible, outline suppressed (`0px`/`0` wide and style
/// `none`) and no box-shadow.
pub open spec fn focus_indicator_fires(n: NodeFacts) -> bool {
    let ow = style(n, "visual"@, "outline-width"@);
    let bs = style(n, "visual"@, "box-shadow"@);
    &&& n.focusable && n.visible
    &&& (ow == Some("0px"@) || ow == Some("0"@))
    &&& style(n, "visual"@, "outline-style"@) == Some("none"@)
    &&& match bs {
        Some(v) => v == "none"@ || v.len() == 0,
        None => true,
    }
}

/// `focus-indicator`: a focusable element with no visible focus signal.
pub fn focus_indicator(node: &NodeFacts) -> (r: Option<CheckLine>)
    ensures
        emitted(r, focus_indicator_fires(*node), *node, "focus-indicator"@, RuleStatus::Warn, FOCUS_EVIDENCE@),
{
    if !(node.focusable && node.visible) {
        return None;
    }
    let ow = style_value(node, "visual", "outline-width");
    let os = style_value(node, "visual", "outline-style");
    let bs = style_value(node, "visual", "box-shadow");
    let width_zero = value_is(&ow, "0px") || value_is(&ow, "0");
    let style_none = value_is(&os, "none");
    let no_shadow = match &bs {
        Some(v) => eq_str(v, "none") || v.len() == 0,
        None => true,
    };
    if width_zero && style_none && no_shadow {
        Some(emit(node, "focus-indicator", RuleStatus::Warn, FOCUS_EVIDENCE.to_owned()))
    } else {
        None
    }
}

/// `hidden-focusable`: focusable but not exposed to assistive tech.
pub fn hidden_focusable(node: &NodeFacts) -> (r: Option<CheckLine>)
    ensures
        emitted(r, node.focusable && node.ax_hidden, *node, "hidden-focusable"@, RuleStatus::Warn, HIDDEN_FOCUSABLE_EVIDENCE@),
{
    if node.focusable && node.ax_hidden {
        Some(emit(node, "hidden-focusable", RuleStatus::Warn, HIDDEN_FOCUSABLE_EVIDENCE.to_owned()))
    } else {
        None
    }
}

/// `sticky-in-overflow-hidden`: `position:sticky` under an ancestor that
/// clips overflow.
pub open spec fn sticky_fires(n: NodeFacts, ctx: AncestorContext) -> bool {
    n.visible && style(n, "layout"@, "position"@) == Some("sticky"@) && ctx.overflow_clipping
}

/// `sticky-in-overflow-hidden`: the stickiness never engages.
pub fn sticky_in_overflow_hidden(node: &NodeFacts, ctx: &AncestorContext) -> (r: Option<CheckLine>)
    ensures
        emitted(r, sticky_fires(*node, *ctx), *node, "sticky-in-overflow-hidden"@, RuleStatus::Warn, STICKY_EVIDENCE@),
{
    if !node.visible || !ctx.overflow_clipping {
        return None;
    }
    let pos = style_value(node, "layout", "position");
    if value_is(&pos, "sticky") {
        Some(emit(node, "sticky-in-overflow-hidden", RuleStatus::Warn, STICKY_EVIDENCE.to_owned()))
    } else {
        None
    }
}

/// `fixed-broken-by-transform`: `position:fixed` under a transformed
/// ancestor.
pub open spec fn fixed_fires(n: NodeFacts, ctx: AncestorContext) -> bool {
    n.visible && style(n, "layout"@, "position"@) == Some("fixed"@) && ctx.transformed
}

/// `fixed-broken-by-transform`: positioned relative to that ancestor.
pub fn fixed_broken_by_transform(node: &NodeFacts, ctx: &AncestorContext) -> (r: Option<CheckLine>)
    ensures
        emitted(r, fixed_fires(*node, *ctx), *node, "fixed-broken-by-transform"@, RuleStatus::Warn, FIXED_EVIDENCE@),
{
    if !node.visible || !ctx.transformed {
        return None;
    }
    let pos = style_value(node, "layout", "position");
    if value_is(&pos, "fixed") {
        Some(emit(node, "fixed-broken-by-transform", RuleStatus::Warn, FIXED_EVIDENCE.to_owned()))
    } else {
        None
    }
}

/// An inset that is unset or `auto`.
pub open spec fn auto_or_unset(v: Option<Seq<char>>) -> bool {
    match v {
        Some(s) => s == "auto"@,
        None => true,
    }
}

/// Every captured inset of the node is `auto`.
pub open spec fn no_insets(n: NodeFacts) -> bool {
    &&& auto_or_unset(style(n, "layout"@, "top"@))
    &&& auto_or_unset(style(n, "layout"@, "right"@))
    &&& auto_or_unset(style(n, "layout"@, "bottom"@))
    &&& auto_or_unset(style(n, "layout"@, "left"@))
    &&& auto_or_unset(style(n, "layout"@, "inset-block-start"@))
    &&& auto_or_unset(style(n, "layout"@, "inset-block-end"@))
    &&& auto_or_unset(style(n, "layout"@, "inset-inline-start"@))
    &&& auto_or_unset(style(n, "layout"@, "inset-inline-end"@))
}

fn inset_auto(node: &NodeFacts, prop: &str) -> (r: bool)
    ensures
        r == auto_or_unset(style(*node, "layout"@, prop@)),
{
    let v = style_value(node, "layout", prop);
    match &v {
        Some(s) => eq_str(s, "auto"),
        None => true,
    }
}

/// `absolute-without-insets` fires on a visible `position:absolute`
/// element with no inset set, unless it is sized like an overlay.
pub open spec fn absolute_fires(n: NodeFacts, overlay_sized: bool) -> bool {
    n.visible && style(n, "layout"@, "position"@) == Some("absolute"@) && no_insets(n) && !overlay_sized
}

/// `absolute-without-insets`: the element stays at its static position.
/// `overlay_sized` says whether its rect is at least 300x300 px (a
/// decorative overlay or backdrop, sized on purpose).
pub fn absolute_without_insets(node: &NodeFacts, overlay_sized: bool) -> (r: Option<CheckLine>)
    ensures
        emitted(r, absolute_fires(*node, overlay_sized), *node, "absolute-without-insets"@, RuleStatus::Warn, ABSOLUTE_EVIDENCE@),
{
    if !node.visible || overlay_sized {
        return None;
    }
    let pos = style_value(node, "layout", "position");
    if !value_is(&pos, "absolute") {
        return None;
    }
    let insets = inset_auto(node, "top") && inset_auto(node, "right") && inset_auto(node, "bottom")
        && inset_auto(node, "left") && inset_auto(node, "inset-block-start")
        && inset_auto(node, "inset-block-end") && inset_auto(node, "inset-inline-start")
        && inset_auto(node, "inset-inline-end");
    if insets {
        Some(emit(node, "absolute-without-insets", RuleStatus::Warn, ABSOLUTE_EVIDENCE.to_owned()))
    } else {
        None
    }
}

/// `interactive-pointer-events-none` fires on a visible interactive
/// element with `pointer-events:none`.
pub open spec fn pointer_events_fires(n: NodeFacts) -> bool {
    n.visible && is_interactive_tag(tag_of(n)) && style(n, "interaction"@, "pointer-events"@) == Some("none"@)
}

/// Evidence of `interactive-pointer-events-none` for tag `t`.
pub open spec fn pointer_events_evidence(t: Seq<char>) -> Seq<char> {
    "interactive "@ + t + " has pointer-events:none — it cannot be clicked or tapped"@
}

/// `interactive-pointer-events-none`: the control cannot be clicked.
pub fn interactive_pointer_events_none(node: &NodeFacts) -> (r: Option<CheckLine>)
    ensures
        emitted(r, pointer_events_fires(*node), *node, "interactive-pointer-events-none"@, RuleStatus::Fail, pointer_events_evidence(tag_of(*node))),
{
    if !node.visible {
        return None;
    }
    let t = tag_chars(node);
    if !interactive_tag(&t) {
        return None;
    }
    let pe = style_value(node, "interaction", "pointer-events");
    if !value_is(&pe, "none") {
        return None;
    }
    let mut ev = chars_of("interactive ");
    push_all(&mut ev, &t);
    push_str(&mut ev, " has pointer-events:none — it cannot be clicked or tapped");
    Some(emit(node, "interactive-pointer-events-none", RuleStatus::Fail, string_of(ev)))
}

/// `aria-hidden-focusable`: keyboard focus lands on hidden content.
pub fn aria_hidden_focusable(node: &NodeFacts) -> (r: Option<CheckLine>)
    ensures
        emitted(r, node.focusable && node.aria_hidden, *node, "aria-hidden-focusable"@, RuleStatus::Fail, ARIA_HIDDEN_EVIDENCE@),
{
    if node.focusable && node.aria_hidden {
        Some(emit(node, "aria-hidden-focusable", RuleStatus::Fail, ARIA_HIDDEN_EVIDENCE.to_owned()))
    } else {
        None
    }
}

/// An overflow value that clips (`hidden`, `clip`, `auto`, `scroll`).
pub open spec fn clipping_value(v: Option<Seq<char>>) -> bool {
    v == Some("hidden"@) || v == Some("clip"@) || v == Some("auto"@) || v == Some("scroll"@)
}

/// `ellipsis-without-clip` fires on visible text with
/// `text-overflow:ellipsis`, no clipping overflow and wrapping allowed.
pub open spec fn ellipsis_fires(n: NodeFacts) -> bool {
    let ws = style(n, "typography"@, "white-space"@);
    &&& n.visible && is_text(n)
    &&& style(n, "typography"@, "text-overflow"@) == Some("ellipsis"@)
    &&& !clipping_value(style(n, "box_model"@, "overflow-x"@))
    &&& !clipping_value(style(n, "box_model"@, "overflow-y"@))
    &&& !(ws == Some("nowrap"@) || ws == Some("pre"@))
}

fn clipping_exec(v: &Option<Vec<char>>) -> (r: bool)
    ensures
        r == clipping_value(opt_chars(*v)),
{
    value_is(v, "hidden") || value_is(v, "clip") || value_is(v, "auto") || value_is(v, "scroll")
}

/// `ellipsis-without-clip`: the ellipsis never shows.
pub fn ellipsis_without_clip(node: &NodeFacts) -> (r: Option<CheckLine>)
    ensures
        emitted(r, ellipsis_fires(*node), *node, "ellipsis-without-clip"@, RuleStatus::Warn, ELLIPSIS_EVIDENCE@),
{
    if !node.visible || !text_bearing(node) {
        return None;
    }
    let to = style_value(node, "typography", "text-overflow");
    if !value_is(&to, "ellipsis") {
        return None;
    }
    let ox = style_value(node, "box_model", "overflow-x");
    let oy = style_value(node, "box_model", "overflow-y");
    let clipped = clipping_exec(&ox) || clipping_exec(&oy);
    let ws = style_value(node, "typography", "white-space");
    let nowrap = value_is(&ws, "nowrap") || value_is(&ws, "pre");
    if !clipped && !nowrap {
        Some(emit(node, "ellipsis-without-clip", RuleStatus::Warn, ELLIPSIS_EVIDENCE.to_owned()))
    } else {
        None
    }
}

/// A padding that is set to something other than `0px`/`0`.
pub open spec fn padded(v: Option<Seq<char>>) -> bool {
    match v {
        Some(s) => s != "0px"@ && s != "0"@,
        None => false,
    }
}

/// `width-100-with-padding` fires on a visible content-box element that is
/// `100%` wide (or min-wide) and has padding.
pub open spec fn width_fires(n: NodeFacts) -> bool {
    &&& n.visible
    &&& style(n, "box_model"@, "box-sizing"@) == Some("content-box"@)
    &&& (style(n, "box_model"@, "width"@) == Some("100%"@) || style(n, "box_model"@, "min-width"@) == Some("100%"@))
    &&& (padded(style(n, "box_model"@, "padding-top"@)) || padded(style(n, "box_model"@, "padding-right"@))
        || padded(style(n, "box_model"@, "padding-bottom"@)) || padded(style(n, "box_model"@, "padding-left"@)))
}

fn padded_exec(node: &NodeFacts, prop: &str) -> (r: bool)
    ensures
        r == padded(style(*node, "box_model"@, prop@)),
{
    let v = style_value(node, "box_model", prop);
    match &v {
        Some(s) => !eq_str(s, "0px") && !eq_str(s, "0"),
        None => false,
    }
}

/// `width-100-with-padding`: guaranteed horizontal overflow.
pub fn width_100_with_padding(node: &NodeFacts) -> (r: Option<CheckLine>)
    ensures
        emitted(r, width_fires(*node), *node, "width-100-with-padding"@, RuleStatus::Warn, WIDTH_EVIDENCE@),
{
    if !node.visible {
        return None;
    }
    let bs = style_value(node, "box_model", "box-sizing");
    if !value_is(&bs, "content-box") {
        return None;
    }
    let w = style_value(node, "box_model", "width");
    let mw = style_value(node, "box_model", "min-width");
    let full = value_is(&w, "100%") || value_is(&mw, "100%");
    let has_padding = padded_exec(node, "padding-top") || padded_exec(node, "padding-right")
        || padded_exec(node, "padding-bottom") || padded_exec(node, "padding-left");
    if full && has_padding {
        Some(emit(node, "width-100-with-padding", RuleStatus::Warn, WIDTH_EVIDENCE.to_owned()))
    } else {
        None
    }
}

/// The `z-index` the static-position rule reads: the layout style, else
/// the captured metrics value.
pub open spec fn z_index_text(n: NodeFacts) -> Option<Seq<char>> {
    match style(n, "layout"@, "z-index"@) {
        Some(v) => Some(v),
        None => opt_view(n.metrics_z_index),
    }
}

/// A numeric `z-index`: not `auto`, starting with a digit or `-`.
pub open spec fn numeric_z(v: Seq<char>) -> bool {
    v != "auto"@ && v.len() > 0 && (is_digit(v[0]) || v[0] == '-')
}

/// `z-index-on-static` fires on a visible `position:static` element with
/// a numeric `z-index` whose parent is not a flex or grid container.
pub open spec fn z_index_fires(n: NodeFacts, ctx: AncestorContext) -> bool {
    &&& n.visible
    &&& (z_index_text(n) matches Some(v) && numeric_z(v))
    &&& style(n, "layout"@, "position"@) == Some("static"@)
    &&& !ctx.parent_flex_or_grid
}

/// Evidence of `z-index-on-static` for the value `v`.
pub open spec fn z_index_evidence(v: Seq<char>) -> Seq<char> {
    "z-index "@ + v + " on a position:static element is ignored — position the element or make the parent a flex/grid container"@
}

/// `z-index-on-static`: the `z-index` is ignored.
pub fn z_index_on_static(node: &NodeFacts, ctx: &AncestorContext) -> (r: Option<CheckLine>)
    ensures
        r.is_some() == z_index_fires(*node, *ctx),
        r matches Some(l) ==> l@ == line_of(*node, "z-index-on-static"@, RuleStatus::Warn, z_index_evidence(z_index_text(*node)->0)),
{
    if !node.visible || ctx.parent_flex_or_grid {
        return None;
    }
    let zi = match style_value(node, "layout", "z-index") {
        Some(v) => v,
        None => match &node.metrics_z_index {
            Some(m) => chars_of(m.as_str()),
            None => {
                return None;
            },
        },
    };
    let numeric = !eq_str(&zi, "auto") && zi.len() > 0 && (('0' <= zi[0] && zi[0] <= '9') || zi[0] == '-');
    if !numeric {
        return None;
    }
    let pos = style_value(node, "layout", "position");
    if !value_is(&pos, "static") {
        return None;
    }
    let mut ev = chars_of("z-index ");
    push_all(&mut ev, &zi);
    push_str(&mut ev, " on a position:static element is ignored — position the element or make the parent a flex/grid container");
    Some(emit(node, "z-index-on-static", RuleStatus::Warn, string_of(ev)))
}

/// Controls that need an accessible name.
pub open spec fn needs_name(t: Seq<char>) -> bool {
    t == "INPUT"@ || t == "BUTTON"@ || t == "SELECT"@ || t == "TEXTAREA"@
}

/// `control-without-name` fires on a visible interactive control that
/// needs a name and has neither a name nor text.
pub open spec fn control_fires(n: NodeFacts) -> bool {
    &&& n.visible
    &&& is_interactive_tag(tag_of(n))
    &&& needs_name(tag_of(n))
    &&& !n.has_name && !n.has_text
}

/// Evidence of `control-without-name` for tag `t`.
pub open spec fn control_evidence(t: Seq<char>) -> Seq<char> {
    "interactive "@ + t + " has no accessible name (no text, aria-label or label) — icon-only controls need one"@
}

/// `control-without-name`: an icon-only control with no accessible name.
pub fn control_without_name(node: &NodeFacts) -> (r: Option<CheckLine>)
    ensures
        emitted(r, control_fires(*node), *node, "control-without-name"@, RuleStatus::Warn, control_evidence(tag_of(*node))),
{
    if !node.visible || node.has_name || node.has_text {
        return None;
    }
    let t = tag_chars(node);
    if !interactive_tag(&t) {
        return None;
    }
    let needs = eq_str(&t, "INPUT") || eq_str(&t, "BUTTON") || eq_str(&t, "SELECT") || eq_str(&t, "TEXTAREA");
    if !needs {
        return None;
    }
    let mut ev = chars_of("interactive ");
    push_all(&mut ev, &t);
    push_str(&mut ev, " has no accessible name (no text, aria-label or label) — icon-only controls need one");
    Some(emit(node, "control-without-name", RuleStatus::Warn, string_of(ev)))
}

/// `text-not-selectable` fires on visible body text (a text tag that is
/// neither interactive nor a link) with `user-select:none`.
pub open spec fn select_fires(n: NodeFacts) -> bool {
    let t = tag_of(n);
    let us = style(n, "interaction"@, "user-select"@);
    &&& n.visible && is_text(n)
    &&& is_text_tag(t) && !is_interactive_tag(t) && t != "A"@
    &&& (us == Some("none"@) || us == Some("-webkit-none"@))
}

/// `text-not-selectable`: users cannot select or copy the text.
pub fn text_not_selectable(node: &NodeFacts) -> (r: Option<CheckLine>)
    ensures
        emitted(r, select_fires(*node), *node, "text-not-selectable"@, RuleStatus::Warn, SELECT_EVIDENCE@),
{
    if !node.visible || !text_bearing(node) {
        return None;
    }
    let t = tag_chars(node);
    if !text_tag(&t) || interactive_tag(&t) || eq_str(&t, "A") {
        return None;
    }
    let us = style_value(node, "interaction", "user-select");
    if value_is(&us, "none") || value_is(&us, "-webkit-none") {
        Some(emit(node, "text-not-selectable", RuleStatus::Warn, SELECT_EVIDENCE.to_owned()))
    } else {
        None
    }
}

/// `transition-all` fires on a visible element with
/// `transition-property:all`.
pub open spec fn transition_fires(n: NodeFacts) -> bool {
    n.visible && style(n, "animation"@, "transition-property"@) == Some("all"@)
}

/// `transition-all`: every property is animated.
pub fn transition_all(node: &NodeFacts) -> (r: Option<CheckLine>)
    ensures
        emitted(r, transition_fires(*node), *node, "transition-all"@, RuleStatus::Warn, TRANSITION_EVIDENCE@),
{
    if !node.visible {
        return None;
    }
    let tp = style_value(node, "animation", "transition-property");
    if value_is(&tp, "all") {
        Some(emit(node, "transition-all", RuleStatus::Warn, TRANSITION_EVIDENCE.to_owned()))
    } else {
        None
    }
}

/// The horizontal overflow value: `overflow-x`, else `overflow`.
pub open spec fn overflow_x(n: NodeFacts) -> Option<Seq<char>> {
    match style(n, "box_model"@, "overflow-x"@) {
        Some(v) => Some(v),
        None => style(n, "box_model"@, "overflow"@),
    }
}

/// `overflow-x-hidden-on-body` fires on a visible `HTML`/`BODY` element
/// whose horizontal overflow is `hidden`.
pub open spec fn body_overflow_fires(n: NodeFacts) -> bool {
    &&& n.visible
    &&& (tag_of(n) == "HTML"@ || tag_of(n) == "BODY"@)
    &&& overflow_x(n) == Some("hidden"@)
}

/// `overflow-x-hidden-on-body`: horizontal overflow is masked.
pub fn overflow_x_hidden_on_body(node: &NodeFacts) -> (r: Option<CheckLine>)
    ensures
        emitted(r, body_overflow_fires(*node), *node, "overflow-x-hidden-on-body"@, RuleStatus::Warn, BODY_OVERFLOW_EVIDENCE@),
{
    if !node.visible {
        return None;
    }
    let t = tag_chars(node);
    if !(eq_str(&t, "HTML") || eq_str(&t, "BODY")) {
        return None;
    }
    let ox = match style_value(node, "box_model", "overflow-x") {
        Some(v) => Some(v),
        None => style_value(node, "box_model", "overflow"),
    };
    if value_is(&ox, "hidden") {
        Some(emit(node, "overflow-x-hidden-on-body", RuleStatus::Warn, BODY_OVERFLOW_EVIDENCE.to_owned()))
    } else {
        None
    }
}

/// The ancestor predicates only accumulate down the tree: a clipping or
/// transformed ancestor stays one for every descendant.
pub proof fn lemma_context_accumulates(n: NodeFacts, parent: AncestorContext)
    ensures
        parent.overflow_clipping ==> child_context(n, parent).overflow_clipping,
        parent.transformed ==> child_context(n, parent).transformed,
{
}


proof fn lemma_find_sub_occurs(s: Seq<char>, p: Seq<char>)
    ensures
        find_sub(s, p) is Some <==> exists|k: int|
            0 <= k && k + p.len() <= s.len() && #[trigger] s.subrange(k, k + p.len()) == p,
    decreases s.len(),
{
    if p.is_prefix_of(s) {
        let z: int = 0;
        assert(s.subrange(z, z + p.len()) =~= p);
        assert(exists|k: int| 0 <= k && k + p.len() <= s.len() && #[trigger] s.subrange(k, k + p.len()) == p);
    } else if s.len() == 0 {
        if exists|k: int| 0 <= k && k + p.len() <= s.len() && #[trigger] s.subrange(k, k + p.len()) == p {
            let k = choose|k: int| 0 <= k && k + p.len() <= s.len() && #[trigger] s.subrange(k, k + p.len()) == p;
            assert(p.len() == 0);
            assert(s.subrange(0, 0) =~= p);
            assert(p.is_prefix_of(s));
        }
    } else {
        let t = s.drop_first();
        lemma_find_sub_occurs(t, p);
        if exists|k: int| 0 <= k && k + p.len() <= s.len() && #[trigger] s.subrange(k, k + p.len()) == p {
            let k = choose|k: int| 0 <= k && k + p.len() <= s.len() && #[trigger] s.subrange(k, k + p.len()) == p;
            if k == 0 {
                assert(s.subrange(0, p.len() as int) =~= p);
                assert(p.is_prefix_of(s));
            } else {
                let k0 = k - 1;
                assert(t.subrange(k0, k0 + p.len()) =~= s.subrange(k, k + p.len()));
                assert(find_sub(t, p) is Some);
                assert(find_sub(s, p) is Some);
            }
        }
        if find_sub(s, p) is Some {
            assert(find_sub(t, p) is Some);
            let k = choose|k: int| 0 <= k && k + p.len() <= t.len() && #[trigger] t.subrange(k, k + p.len()) == p;
            let k1 = k + 1;
            assert(s.subrange(k1, k1 + p.len()) =~= t.subrange(k, k + p.len()));
            assert(exists|k: int| 0 <= k && k + p.len() <= s.len() && #[trigger] s.subrange(k, k + p.len()) == p);
        }
    }
}

/// What a node hands down to its children: a transformed context when the
/// parent's is one or when the node has a `transform` or `perspective`
/// other than `none`, a `filter` other than `none`, a `will-change` other
/// than `auto`, or a `contain` that mentions `paint`; an overflow-clipping
/// context when the parent's is one or when an `overflow-x`/`overflow-y`
/// is set to neither `visible` nor `clip`; and a flex/grid parent exactly
/// when its `display` is `flex`, `inline-flex`, `grid` or `inline-grid`.
pub proof fn lemma_child_context(n: NodeFacts, parent: AncestorContext)
    ensures
        child_context(n, parent).transformed <==> (parent.transformed || (exists|v: Seq<char>|
            style(n, "transform"@, "transform"@) == Some(v) && v != "none"@) || (exists|v: Seq<char>|
            style(n, "transform"@, "perspective"@) == Some(v) && v != "none"@) || (exists|v: Seq<char>|
            style(n, "visual"@, "filter"@) == Some(v) && v != "none"@) || (exists|v: Seq<char>|
            style(n, "visual"@, "will-change"@) == Some(v) && v != "auto"@) || (exists|v: Seq<char>|
            style(n, "layout"@, "contain"@) == Some(v) && exists|k: int|
                0 <= k && k + 5 <= v.len() && #[trigger] v.subrange(k, k + 5) == "paint"@)),
        child_context(n, parent).overflow_clipping <==> (parent.overflow_clipping || (exists|v: Seq<char>|
            style(n, "box_model"@, "overflow-x"@) == Some(v) && v != "visible"@ && v != "clip"@) || (exists|
            v: Seq<char>|
            style(n, "box_model"@, "overflow-y"@) == Some(v) && v != "visible"@ && v != "clip"@)),
        child_context(n, parent).parent_flex_or_grid <==> (style(n, "layout"@, "display"@) == Some("flex"@)
            || style(n, "layout"@, "display"@) == Some("inline-flex"@) || style(n, "layout"@, "display"@)
            == Some("grid"@) || style(n, "layout"@, "display"@) == Some("inline-grid"@)),
{
    reveal_strlit("paint");
    if let Some(v) = style(n, "layout"@, "contain"@) {
        lemma_find_sub_occurs(v, "paint"@);
    }
}

} // verus!
