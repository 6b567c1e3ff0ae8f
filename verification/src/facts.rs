//! What the per-node rules read of a loaded snapshot node.
use crate::checks::{NodeFacts, StyleEntry};
use crate::delta::{node_selector, selector_of, text_member};
use crate::json::{as_text, get, jget, json_view, lemma_member_views, member_views, Json, JsonView};
use crate::load::{snap_view, SnapNode};
use crate::text::{chars_of, eq_str, opt_view};
use vstd::prelude::*;

verus! {

/// The member `k` of an optional value.
pub open spec fn member(v: Option<JsonView>, k: Seq<char>) -> Option<JsonView> {
    match v {
        Some(x) => jget(x, k),
        None => None,
    }
}

/// `Value::as_bool`.
pub open spec fn flag(v: Option<JsonView>) -> Option<bool> {
    match v {
        Some(JsonView::Bool(b)) => Some(b),
        _ => None,
    }
}

pub open spec fn flag_or(v: Option<bool>, d: bool) -> bool {
    match v {
        Some(b) => b,
        None => d,
    }
}

/// The string-valued properties of one style category, in order.
pub open spec fn category_entries(cat: Seq<char>, props: Seq<(Seq<char>, JsonView)>) -> Seq<(Seq<char>, Seq<char>, Seq<char>)>
    decreases props.len(),
{
    if props.len() == 0 {
        Seq::empty()
    } else {
        let p = category_entries(cat, props.drop_last());
        match props.last().1 {
            JsonView::Str(s) => p.push((cat, props.last().0, s)),
            _ => p,
        }
    }
}

/// The string-valued properties of every category that is an object, in
/// order.
pub open spec fn style_entries(cats: Seq<(Seq<char>, JsonView)>) -> Seq<(Seq<char>, Seq<char>, Seq<char>)>
    decreases cats.len(),
{
    if cats.len() == 0 {
        Seq::empty()
    } else {
        let p = style_entries(cats.drop_last());
        match cats.last().1 {
            JsonView::Object(m) => p + category_entries(cats.last().0, m),
            _ => p,
        }
    }
}

/// The style entries of a node: those of its `styles` object.
pub open spec fn node_styles(v: JsonView) -> Seq<(Seq<char>, Seq<char>, Seq<char>)> {
    match jget(v, "styles"@) {
        Some(JsonView::Object(m)) => style_entries(m),
        _ => Seq::empty(),
    }
}

pub open spec fn entry_views(s: Seq<StyleEntry>) -> Seq<(Seq<char>, Seq<char>, Seq<char>)> {
    s.map_values(|e: StyleEntry| (e.category@, e.property@, e.value@))
}

/// The facts of the node `v`:
/// - focusable from the `aria` facet, else from the `ax` facet, else false;
/// - a name when `aria.name` is a non-empty text;
/// - `has_text` and `ariaHidden` from the `aria` facet, false when absent;
/// - visible unless `is_user_noticeable.display_visible` is false;
/// - hidden from assistive technology when the accessibility grade is `NONE`.
pub open spec fn facts_hold(f: NodeFacts, v: JsonView) -> bool {
    let aria = jget(v, "aria"@);
    let noticeable = jget(v, "is_user_noticeable"@);
    &&& f.selector@ == node_selector(v)
    &&& opt_view(f.tag) == as_text(jget(v, "tag"@))
    &&& f.visible == flag_or(flag(member(noticeable, "display_visible"@)), true)
    &&& f.focusable == match flag(member(aria, "focusable"@)) {
        Some(b) => b,
        None => flag_or(flag(member(jget(v, "ax"@), "focusable"@)), false),
    }
    &&& f.has_text == flag_or(flag(member(aria, "has_text"@)), false)
    &&& f.has_name == (match as_text(member(aria, "name"@)) {
        Some(s) => s.len() > 0,
        None => false,
    })
    &&& f.aria_hidden == flag_or(flag(member(aria, "ariaHidden"@)), false)
    &&& f.ax_hidden == (as_text(member(noticeable, "accessibility_grade"@)) == Some("NONE"@))
    &&& entry_views(f.styles@) == node_styles(v)
    &&& opt_view(f.metrics_z_index) == as_text(member(jget(v, "metrics"@), "z_index"@))
}

fn member_exec<'a>(v: Option<&'a Json>, k: &str) -> (r: Option<&'a Json>)
    ensures
        match r {
            Some(x) => member(match v {
                Some(y) => Some(json_view(*y)),
                None => None,
            }, k@) == Some(json_view(*x)),
            None => member(match v {
                Some(y) => Some(json_view(*y)),
                None => None,
            }, k@) is None,
        },
{
    match v {
        Some(x) => get(x, k),
        None => None,
    }
}

fn flag_exec(v: Option<&Json>) -> (r: Option<bool>)
    ensures
        r == flag(match v {
            Some(y) => Some(json_view(*y)),
            None => None,
        }),
{
    match v {
        Some(Json::Bool(b)) => Some(*b),
        _ => None,
    }
}

fn text_exec(v: Option<&Json>) -> (r: Option<Vec<char>>)
    ensures
        match r {
            Some(t) => as_text(match v {
                Some(y) => Some(json_view(*y)),
                None => None,
            }) == Some(t@),
            None => as_text(match v {
                Some(y) => Some(json_view(*y)),
                None => None,
            }) is None,
        },
{
    match v {
        Some(Json::Str(s)) => Some(chars_of(s.as_str())),
        _ => None,
    }
}

fn push_category(out: &mut Vec<StyleEntry>, cat: &String, props: &Vec<(String, Json)>)
    ensures
        entry_views(final(out)@) == entry_views(old(out)@) + category_entries(cat@, member_views(props@)),
{
    proof {
        lemma_member_views(props@);
    }
    let ghost start = entry_views(out@);
    let ghost mv = member_views(props@);
    let mut j: usize = 0;
    assert(mv.take(0) =~= Seq::<(Seq<char>, JsonView)>::empty());
    assert(start + category_entries(cat@, mv.take(0)) =~= start);
    while j < props.len()
        invariant
            j <= props.len(),
            mv == member_views(props@),
            mv.len() == props@.len(),
            forall|q: int| 0 <= q < props@.len() ==> #[trigger] mv[q] == (props@[q].0@, json_view(props@[q].1)),
            entry_views(out@) == start + category_entries(cat@, mv.take(j as int)),
        decreases props.len() - j,
    {
        assert(mv.take(j + 1).drop_last() =~= mv.take(j as int));
        assert(mv.take(j + 1).last() == mv[j as int]);
        match &props[j].1 {
            Json::Str(s) => {
                let e = StyleEntry { category: cat.clone(), property: props[j].0.clone(), value: s.clone() };
                let ghost pre = out@;
                out.push(e);
                assert(entry_views(out@) =~= entry_views(pre).push((e.category@, e.property@, e.value@)));
            },
            _ => {},
        }
        assert(entry_views(out@) =~= start + category_entries(cat@, mv.take(j + 1)));
        j = j + 1;
    }
    assert(mv.take(props.len() as int) =~= mv);
}

fn styles_exec(v: &Json) -> (r: Vec<StyleEntry>)
    ensures
        entry_views(r@) == node_styles(json_view(*v)),
{
    let mut out: Vec<StyleEntry> = Vec::new();
    assert(entry_views(out@) =~= Seq::<(Seq<char>, Seq<char>, Seq<char>)>::empty());
    match get(v, "styles") {
        Some(Json::Object(cats)) => {
            proof {
                lemma_member_views(cats@);
            }
            let ghost cv = member_views(cats@);
            let mut i: usize = 0;
            assert(cv.take(0) =~= Seq::<(Seq<char>, JsonView)>::empty());
            while i < cats.len()
                invariant
                    i <= cats.len(),
                    cv == member_views(cats@),
                    cv.len() == cats@.len(),
                    forall|q: int| 0 <= q < cats@.len() ==> #[trigger] cv[q] == (cats@[q].0@, json_view(cats@[q].1)),
                    entry_views(out@) == style_entries(cv.take(i as int)),
                decreases cats.len() - i,
            {
                assert(cv.take(i + 1).drop_last() =~= cv.take(i as int));
                assert(cv.take(i + 1).last() == cv[i as int]);
                match &cats[i].1 {
                    Json::Object(props) => {
                        push_category(&mut out, &cats[i].0, props);
                    },
                    _ => {},
                }
                i = i + 1;
            }
            assert(cv.take(cats.len() as int) =~= cv);
        },
        _ => {},
    }
    out
}

/// What the per-node rules read of the node `n` (see `facts_hold`).
pub fn node_facts(n: &SnapNode) -> (r: NodeFacts)
    ensures
        facts_hold(r, snap_view(*n).value),
{
    let v = &n.value;
    let aria = get(v, "aria");
    let noticeable = get(v, "is_user_noticeable");
    let focusable = match flag_exec(member_exec(aria, "focusable")) {
        Some(b) => b,
        None => match flag_exec(member_exec(get(v, "ax"), "focusable")) {
            Some(b) => b,
            None => false,
        },
    };
    let has_name = match text_exec(member_exec(aria, "name")) {
        Some(t) => t.len() > 0,
        None => false,
    };
    let ax_hidden = match text_exec(member_exec(noticeable, "accessibility_grade")) {
        Some(t) => eq_str(&t, "NONE"),
        None => false,
    };
    let z = match member_exec(get(v, "metrics"), "z_index") {
        Some(Json::Str(s)) => Some(s.clone()),
        _ => None,
    };
    NodeFacts {
        selector: selector_of(v),
        tag: text_member(v, "tag"),
        visible: match flag_exec(member_exec(noticeable, "display_visible")) {
            Some(b) => b,
            None => true,
        },
        focusable,
        has_text: match flag_exec(member_exec(aria, "has_text")) {
            Some(b) => b,
            None => false,
        },
        has_name,
        aria_hidden: match flag_exec(member_exec(aria, "ariaHidden")) {
            Some(b) => b,
            None => false,
        },
        ax_hidden,
        styles: styles_exec(v),
        metrics_z_index: z,
    }
}

} // verus!
