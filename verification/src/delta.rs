//! The structural tree diff: which nodes changed, were added or were
//! removed between two snapshot forests, and how each changed node's
//! facets differ. Values are compared exactly, numbers by their text; the
//! numeric tolerance that absorbs subpixel jitter is a floating-point
//! judgement and is applied by the caller to the differences found here.
use crate::action::strings_model;
use crate::json::{
    clone_json, find_member, get, json_eq, json_view, jget, jsize, lemma_member_index, lemma_member_views,
    lemma_msizes_elem, member_index, member_views, msizes, opt_json_eq, opt_json_view, as_text, as_u64, Json, JsonView,
};
use crate::diff::{first_free, head_matched, position_pass, selector_pass, lemma_sibling_matches, match_siblings, matches_model, sibling_matches, DiffStats};
use crate::load::{as_u64_exec, lemma_snap_views, snap_view, snap_views, SnapNode, SnapView};
use crate::text::{chars_of, opt_view, seq_eq};
use vstd::prelude::*;

verus! {

// ---------------------------------------------------------------------------
// Objects as member sequences
// ---------------------------------------------------------------------------

/// The members of an object; nothing for other values (`Value::as_object`).
pub open spec fn members_of(v: Option<JsonView>) -> Option<Seq<(Seq<char>, JsonView)>> {
    match v {
        Some(JsonView::Object(m)) => Some(m),
        _ => None,
    }
}

/// The members of an optional object, none when it is missing.
pub open spec fn or_empty(m: Option<Seq<(Seq<char>, JsonView)>>) -> Seq<(Seq<char>, JsonView)> {
    match m {
        Some(x) => x,
        None => Seq::empty(),
    }
}

/// The value of the member named `k`.
pub open spec fn mget(m: Seq<(Seq<char>, JsonView)>, k: Seq<char>) -> Option<JsonView> {
    match member_index(m, k, 0) {
        Some(i) => Some(m[i].1),
        None => None,
    }
}

pub open spec fn keys_of(m: Seq<(Seq<char>, JsonView)>) -> Seq<Seq<char>> {
    m.map_values(|p: (Seq<char>, JsonView)| p.0)
}

/// Each key once, in the order in which it first occurs.
pub open spec fn dedup(s: Seq<Seq<char>>) -> Seq<Seq<char>>
    decreases s.len(),
{
    if s.len() == 0 {
        Seq::empty()
    } else {
        let d = dedup(s.drop_last());
        if d.contains(s.last()) {
            d
        } else {
            d.push(s.last())
        }
    }
}

/// The keys of two objects together: those of the first, then those of
/// the second that the first lacks.
pub open spec fn union_keys(a: Seq<(Seq<char>, JsonView)>, b: Seq<(Seq<char>, JsonView)>) -> Seq<Seq<char>> {
    dedup(keys_of(a) + keys_of(b))
}

pub open spec fn or_null(v: Option<JsonView>) -> JsonView {
    match v {
        Some(x) => x,
        None => JsonView::Null,
    }
}

/// `{"before": b, "after": a}`, a missing side written as `null`.
pub open spec fn before_after(b: Option<JsonView>, a: Option<JsonView>) -> JsonView {
    JsonView::Object(seq![("before"@, or_null(b)), ("after"@, or_null(a))])
}

/// The before/after pair of two values that differ; nothing when equal.
pub open spec fn changed_pair(b: Option<JsonView>, h: Option<JsonView>) -> Option<JsonView> {
    if b == h {
        None
    } else {
        Some(before_after(b, h))
    }
}

pub open spec fn osize(v: Option<JsonView>) -> nat {
    match v {
        Some(x) => jsize(x),
        None => 0,
    }
}

pub proof fn lemma_mget_size(m: Seq<(Seq<char>, JsonView)>, k: Seq<char>)
    ensures
        osize(mget(m, k)) <= msizes(m),
{
    lemma_member_index(m, k, 0);
    if let Some(i) = member_index(m, k, 0) {
        lemma_msizes_elem(m, i);
    }
}

// ---------------------------------------------------------------------------
// Property, style and pseudo-element differences
// ---------------------------------------------------------------------------

/// For each key of `keys` not ignored whose values differ in `bm` and
/// `hm`, the key with the two values.
pub open spec fn prop_entries(
    keys: Seq<Seq<char>>,
    bm: Seq<(Seq<char>, JsonView)>,
    hm: Seq<(Seq<char>, JsonView)>,
    ig: Seq<Seq<char>>,
) -> Seq<(Seq<char>, JsonView)>
    decreases keys.len(),
{
    if keys.len() == 0 {
        Seq::empty()
    } else {
        let prev = prop_entries(keys.drop_last(), bm, hm, ig);
        let k = keys.last();
        if ig.contains(k) || mget(bm, k) == mget(hm, k) {
            prev
        } else {
            prev.push((k, before_after(mget(bm, k), mget(hm, k))))
        }
    }
}

/// Every member not ignored of one side, the other side missing.
pub open spec fn side_entries(m: Seq<(Seq<char>, JsonView)>, ig: Seq<Seq<char>>, base_side: bool) -> Seq<
    (Seq<char>, JsonView),
>
    decreases m.len(),
{
    if m.len() == 0 {
        Seq::empty()
    } else {
        let prev = side_entries(m.drop_last(), ig, base_side);
        let k = m.last().0;
        let v = m.last().1;
        if ig.contains(k) {
            prev
        } else if base_side {
            prev.push((k, before_after(Some(v), None)))
        } else {
            prev.push((k, before_after(None, Some(v))))
        }
    }
}

pub open spec fn value_entry(b: Option<JsonView>, h: Option<JsonView>) -> Seq<(Seq<char>, JsonView)> {
    seq![("_value"@, before_after(b, h))]
}

/// The differing properties of one style category; a category that is
/// not an object is compared whole, as `_value`.
pub open spec fn prop_diff(b: Option<JsonView>, h: Option<JsonView>, ig: Seq<Seq<char>>) -> Seq<
    (Seq<char>, JsonView),
> {
    match (b, h) {
        (Some(JsonView::Object(bm)), Some(JsonView::Object(hm))) => prop_entries(
            union_keys(bm, hm),
            bm,
            hm,
            ig,
        ),
        (Some(x), Some(y)) => if x == y {
            Seq::empty()
        } else {
            value_entry(b, h)
        },
        (Some(JsonView::Object(bm)), None) => side_entries(bm, ig, true),
        (Some(_), None) => value_entry(b, h),
        (None, Some(JsonView::Object(hm))) => side_entries(hm, ig, false),
        (None, Some(_)) => value_entry(b, h),
        (None, None) => Seq::empty(),
    }
}

pub open spec fn style_entries(
    keys: Seq<Seq<char>>,
    bm: Seq<(Seq<char>, JsonView)>,
    hm: Seq<(Seq<char>, JsonView)>,
    ig: Seq<Seq<char>>,
) -> Seq<(Seq<char>, JsonView)>
    decreases keys.len(),
{
    if keys.len() == 0 {
        Seq::empty()
    } else {
        let prev = style_entries(keys.drop_last(), bm, hm, ig);
        let k = keys.last();
        let props = prop_diff(mget(bm, k), mget(hm, k), ig);
        if props.len() == 0 {
            prev
        } else {
            prev.push((k, JsonView::Object(props)))
        }
    }
}

/// The differences of two `styles` maps (category, then property); none
/// when no property differs.
pub open spec fn style_diff(
    b: Option<Seq<(Seq<char>, JsonView)>>,
    h: Option<Seq<(Seq<char>, JsonView)>>,
    ig: Seq<Seq<char>>,
) -> Option<JsonView> {
    let e = style_entries(union_keys(or_empty(b), or_empty(h)), or_empty(b), or_empty(h), ig);
    if e.len() == 0 {
        None
    } else {
        Some(JsonView::Object(e))
    }
}

pub open spec fn pseudo_entries(
    keys: Seq<Seq<char>>,
    bm: Seq<(Seq<char>, JsonView)>,
    hm: Seq<(Seq<char>, JsonView)>,
    ig: Seq<Seq<char>>,
) -> Seq<(Seq<char>, JsonView)>
    decreases keys.len(),
{
    if keys.len() == 0 {
        Seq::empty()
    } else {
        let prev = pseudo_entries(keys.drop_last(), bm, hm, ig);
        let k = keys.last();
        match style_diff(members_of(mget(bm, k)), members_of(mget(hm, k)), ig) {
            Some(d) => prev.push((k, d)),
            None => prev,
        }
    }
}

/// The differences of two pseudo-element maps (element, then styles).
pub open spec fn pseudo_diff(
    b: Option<Seq<(Seq<char>, JsonView)>>,
    h: Option<Seq<(Seq<char>, JsonView)>>,
    ig: Seq<Seq<char>>,
) -> Option<JsonView> {
    let e = pseudo_entries(union_keys(or_empty(b), or_empty(h)), or_empty(b), or_empty(h), ig);
    if e.len() == 0 {
        None
    } else {
        Some(JsonView::Object(e))
    }
}

// ---------------------------------------------------------------------------
// Arbitrary values: per key for objects, whole otherwise
// ---------------------------------------------------------------------------

/// The difference of two JSON values: objects per key, recursively;
/// other values as a before/after pair; none when equal.
pub open spec fn object_diff(b: Option<JsonView>, h: Option<JsonView>) -> Option<JsonView>
    decreases osize(b) + osize(h), 0nat,
{
    if b == h {
        None
    } else {
        match (b, h) {
            (Some(JsonView::Object(xm)), Some(JsonView::Object(ym))) => {
                let e = object_entries(union_keys(xm, ym), xm, ym);
                if e.len() == 0 {
                    None
                } else {
                    Some(JsonView::Object(e))
                }
            },
            _ => Some(before_after(b, h)),
        }
    }
}

pub open spec fn object_entries(
    keys: Seq<Seq<char>>,
    xm: Seq<(Seq<char>, JsonView)>,
    ym: Seq<(Seq<char>, JsonView)>,
) -> Seq<(Seq<char>, JsonView)>
    decreases msizes(xm) + msizes(ym) + 1, keys.len(),
{
    if keys.len() == 0 {
        Seq::empty()
    } else {
        let prev = object_entries(keys.drop_last(), xm, ym);
        let k = keys.last();
        proof {
            lemma_mget_size(xm, k);
            lemma_mget_size(ym, k);
        }
        match object_diff(mget(xm, k), mget(ym, k)) {
            Some(d) => prev.push((k, d)),
            None => prev,
        }
    }
}

// ---------------------------------------------------------------------------
// A node's changes
// ---------------------------------------------------------------------------

pub open spec fn put(f: Seq<(Seq<char>, JsonView)>, k: Seq<char>, d: Option<JsonView>) -> Seq<
    (Seq<char>, JsonView),
> {
    match d {
        Some(x) => f.push((k, x)),
        None => f,
    }
}

/// `Value::as_bool`, as a JSON value again.
pub open spec fn bool_of(v: Option<JsonView>) -> Option<JsonView> {
    match v {
        Some(JsonView::Bool(b)) => Some(JsonView::Bool(b)),
        _ => None,
    }
}

/// The differing facets of a matched node pair, by facet name: styles,
/// pseudo-elements, rect, metrics, visibility, ARIA, contrast and the
/// accessibility node; none when nothing differs.
pub open spec fn node_changes(b: JsonView, h: JsonView, ig: Seq<Seq<char>>) -> Option<JsonView> {
    let f0 = put(
        Seq::empty(),
        "styles"@,
        style_diff(members_of(jget(b, "styles"@)), members_of(jget(h, "styles"@)), ig),
    );
    let f1 = put(f0, "pseudo"@, pseudo_diff(members_of(jget(b, "pseudo"@)), members_of(jget(h, "pseudo"@)), ig));
    let f2 = put(f1, "rect"@, changed_pair(jget(b, "rect"@), jget(h, "rect"@)));
    let f3 = put(f2, "metrics"@, changed_pair(jget(b, "metrics"@), jget(h, "metrics"@)));
    let f4 = put(f3, "is_visible"@, changed_pair(bool_of(jget(b, "is_visible"@)), bool_of(jget(h, "is_visible"@))));
    let f5 = put(f4, "aria"@, object_diff(jget(b, "aria"@), jget(h, "aria"@)));
    let f6 = put(f5, "contrast"@, object_diff(jget(b, "contrast"@), jget(h, "contrast"@)));
    let f7 = put(f6, "ax"@, object_diff(jget(b, "ax"@), jget(h, "ax"@)));
    if f7.len() == 0 {
        None
    } else {
        Some(JsonView::Object(f7))
    }
}

// ---------------------------------------------------------------------------
// Executable helpers
// ---------------------------------------------------------------------------

/// Whether `k` is among `v`.
fn has_key(v: &Vec<String>, k: &String) -> (r: bool)
    ensures
        r == strings_model(v@).contains(k@),
{
    let kc = chars_of(k.as_str());
    let mut i: usize = 0;
    while i < v.len()
        invariant
            i <= v.len(),
            kc@ == k@,
            forall|q: int| 0 <= q < i ==> v@[q]@ != k@,
        decreases v.len() - i,
    {
        if seq_eq(&chars_of(v[i].as_str()), &kc) {
            assert(strings_model(v@)[i as int] == k@);
            return true;
        }
        i = i + 1;
    }
    assert forall|q: int| 0 <= q < strings_model(v@).len() implies strings_model(v@)[q] != k@ by {
        assert(strings_model(v@)[q] == v@[q]@);
    }
    false
}

/// The member named `k`.
fn lookup<'a>(m: &'a Vec<(String, Json)>, k: &String) -> (r: Option<&'a Json>)
    ensures
        opt_json_view(r) == mget(member_views(m@), k@),
{
    proof {
        lemma_member_views(m@);
    }
    match find_member(m, k.as_str()) {
        Some(i) => Some(&m[i].1),
        None => None,
    }
}

/// The members of an object value.
fn members<'a>(v: Option<&'a Json>) -> (r: Option<&'a Vec<(String, Json)>>)
    ensures
        match r {
            Some(m) => members_of(opt_json_view(v)) == Some(member_views(m@)),
            None => members_of(opt_json_view(v)) is None,
        },
{
    match v {
        Some(Json::Object(m)) => Some(m),
        _ => None,
    }
}

fn text(s: &str) -> (r: String)
    ensures
        r@ == s@,
{
    String::from_str(s)
}

fn or_null_exec(v: Option<&Json>) -> (r: Json)
    ensures
        json_view(r) == or_null(opt_json_view(v)),
{
    match v {
        Some(x) => clone_json(x),
        None => Json::Null,
    }
}

/// `{"before": b, "after": a}`.
fn before_after_exec(b: Option<&Json>, a: Option<&Json>) -> (r: Json)
    ensures
        json_view(r) == before_after(opt_json_view(b), opt_json_view(a)),
{
    let mut m: Vec<(String, Json)> = Vec::new();
    m.push((text("before"), or_null_exec(b)));
    m.push((text("after"), or_null_exec(a)));
    proof {
        lemma_member_views(m@);
        assert(member_views(m@) =~= seq![("before"@, or_null(opt_json_view(b))), ("after"@, or_null(opt_json_view(a)))]);
    }
    Json::Object(m)
}

/// The keys of `a`, then those of `b` that `a` lacks.
fn union_keys_exec(a: &Vec<(String, Json)>, b: &Vec<(String, Json)>) -> (r: Vec<String>)
    ensures
        strings_model(r@) == union_keys(member_views(a@), member_views(b@)),
{
    proof {
        lemma_member_views(a@);
        lemma_member_views(b@);
    }
    let ghost all = keys_of(member_views(a@)) + keys_of(member_views(b@));
    let mut out: Vec<String> = Vec::new();
    let mut i: usize = 0;
    while i < a.len()
        invariant
            i <= a.len(),
            all == keys_of(member_views(a@)) + keys_of(member_views(b@)),
            member_views(a@).len() == a@.len(),
            member_views(b@).len() == b@.len(),
            forall|q: int| 0 <= q < a@.len() ==> #[trigger] member_views(a@)[q] == (a@[q].0@, json_view(a@[q].1)),
            strings_model(out@) == dedup(all.take(i as int)),
        decreases a.len() - i,
    {
        assert(all.take(i + 1).drop_last() =~= all.take(i as int));
        assert(all[i as int] == a@[i as int].0@);
        if !has_key(&out, &a[i].0) {
            out.push(a[i].0.clone());
            assert(strings_model(out@) =~= dedup(all.take(i as int)).push(a@[i as int].0@));
        }
        i = i + 1;
    }
    let mut j: usize = 0;
    while j < b.len()
        invariant
            j <= b.len(),
            all == keys_of(member_views(a@)) + keys_of(member_views(b@)),
            all.len() == a@.len() + b@.len(),
            member_views(b@).len() == b@.len(),
            forall|q: int| 0 <= q < b@.len() ==> #[trigger] member_views(b@)[q] == (b@[q].0@, json_view(b@[q].1)),
            strings_model(out@) == dedup(all.take(a.len() + j)),
        decreases b.len() - j,
    {
        assert(all.take(a.len() + j + 1).drop_last() =~= all.take(a.len() + j));
        assert(all[a.len() + j] == b@[j as int].0@);
        if !has_key(&out, &b[j].0) {
            out.push(b[j].0.clone());
            assert(strings_model(out@) =~= dedup(all.take(a.len() + j)).push(b@[j as int].0@));
        }
        j = j + 1;
    }
    assert(all.take(a.len() + b.len()) =~= all);
    out
}

pub open spec fn oview(r: Option<Json>) -> Option<JsonView> {
    match r {
        Some(x) => Some(json_view(x)),
        None => None,
    }
}

pub open spec fn opt_members(m: Option<&Vec<(String, Json)>>) -> Option<Seq<(Seq<char>, JsonView)>> {
    match m {
        Some(x) => Some(member_views(x@)),
        None => None,
    }
}

fn opt_ref(o: &Option<Json>) -> (r: Option<&Json>)
    ensures
        opt_json_view(r) == oview(*o),
{
    match o {
        Some(x) => Some(x),
        None => None,
    }
}

proof fn lemma_push_member(s: Seq<(String, Json)>, x: (String, Json))
    ensures
        member_views(s.push(x)) == member_views(s).push((x.0@, json_view(x.1))),
{
    assert(s.push(x).drop_last() =~= s);
}

proof fn lemma_empty_members(s: Seq<(String, Json)>)
    requires
        s.len() == 0,
    ensures
        member_views(s) == Seq::<(Seq<char>, JsonView)>::empty(),
{
}

fn value_entry_exec(b: Option<&Json>, h: Option<&Json>) -> (r: Vec<(String, Json)>)
    ensures
        member_views(r@) == value_entry(opt_json_view(b), opt_json_view(h)),
{
    let mut out: Vec<(String, Json)> = Vec::new();
    let ghost pre = out@;
    out.push((text("_value"), before_after_exec(b, h)));
    proof {
        lemma_push_member(pre, out@.last());
        assert(out@ == pre.push(out@.last()));
        assert(member_views(out@) =~= value_entry(opt_json_view(b), opt_json_view(h)));
    }
    out
}

fn prop_entries_exec(
    keys: &Vec<String>,
    bm: &Vec<(String, Json)>,
    hm: &Vec<(String, Json)>,
    ig: &Vec<String>,
) -> (r: Vec<(String, Json)>)
    ensures
        member_views(r@) == prop_entries(
            strings_model(keys@),
            member_views(bm@),
            member_views(hm@),
            strings_model(ig@),
        ),
{
    let ghost ks = strings_model(keys@);
    let mut out: Vec<(String, Json)> = Vec::new();
    let mut i: usize = 0;
    while i < keys.len()
        invariant
            i <= keys.len(),
            ks == strings_model(keys@),
            member_views(out@) == prop_entries(ks.take(i as int), member_views(bm@), member_views(hm@), strings_model(ig@)),
        decreases keys.len() - i,
    {
        let ghost pre = out@;
        assert(ks.take(i + 1).drop_last() =~= ks.take(i as int));
        assert(ks.take(i + 1).last() == keys@[i as int]@);
        let k = &keys[i];
        let bv = lookup(bm, k);
        let hv = lookup(hm, k);
        if !has_key(ig, k) && !opt_json_eq(bv, hv) {
            out.push((k.clone(), before_after_exec(bv, hv)));
            proof {
                lemma_push_member(pre, out@.last());
                assert(out@ == pre.push(out@.last()));
            }
        }
        i = i + 1;
    }
    assert(ks.take(keys.len() as int) =~= ks);
    out
}

fn side_entries_exec(m: &Vec<(String, Json)>, ig: &Vec<String>, base_side: bool) -> (r: Vec<(String, Json)>)
    ensures
        member_views(r@) == side_entries(member_views(m@), strings_model(ig@), base_side),
{
    proof {
        lemma_member_views(m@);
    }
    let ghost mv = member_views(m@);
    let mut out: Vec<(String, Json)> = Vec::new();
    let mut i: usize = 0;
    while i < m.len()
        invariant
            i <= m.len(),
            mv == member_views(m@),
            mv.len() == m@.len(),
            forall|q: int| 0 <= q < m@.len() ==> #[trigger] mv[q] == (m@[q].0@, json_view(m@[q].1)),
            member_views(out@) == side_entries(mv.take(i as int), strings_model(ig@), base_side),
        decreases m.len() - i,
    {
        let ghost pre = out@;
        assert(mv.take(i + 1).drop_last() =~= mv.take(i as int));
        assert(mv.take(i + 1).last() == mv[i as int]);
        if !has_key(ig, &m[i].0) {
            let pair = if base_side {
                before_after_exec(Some(&m[i].1), None)
            } else {
                before_after_exec(None, Some(&m[i].1))
            };
            out.push((m[i].0.clone(), pair));
            proof {
                lemma_push_member(pre, out@.last());
                assert(out@ == pre.push(out@.last()));
            }
        }
        i = i + 1;
    }
    assert(mv.take(m.len() as int) =~= mv);
    out
}

fn prop_diff_exec(b: Option<&Json>, h: Option<&Json>, ig: &Vec<String>) -> (r: Vec<(String, Json)>)
    ensures
        member_views(r@) == prop_diff(opt_json_view(b), opt_json_view(h), strings_model(ig@)),
{
    let empty: Vec<(String, Json)> = Vec::new();
    proof {
        lemma_empty_members(empty@);
    }
    match (b, h) {
        (Some(Json::Object(bm)), Some(Json::Object(hm))) => {
            let keys = union_keys_exec(bm, hm);
            prop_entries_exec(&keys, bm, hm, ig)
        },
        (Some(x), Some(y)) => {
            if json_eq(x, y) {
                empty
            } else {
                value_entry_exec(b, h)
            }
        },
        (Some(Json::Object(bm)), None) => side_entries_exec(bm, ig, true),
        (Some(_), None) => value_entry_exec(b, h),
        (None, Some(Json::Object(hm))) => side_entries_exec(hm, ig, false),
        (None, Some(_)) => value_entry_exec(b, h),
        (None, None) => empty,
    }
}

fn style_entries_exec(
    keys: &Vec<String>,
    bm: &Vec<(String, Json)>,
    hm: &Vec<(String, Json)>,
    ig: &Vec<String>,
) -> (r: Vec<(String, Json)>)
    ensures
        member_views(r@) == style_entries(
            strings_model(keys@),
            member_views(bm@),
            member_views(hm@),
            strings_model(ig@),
        ),
{
    let ghost ks = strings_model(keys@);
    let mut out: Vec<(String, Json)> = Vec::new();
    let mut i: usize = 0;
    while i < keys.len()
        invariant
            i <= keys.len(),
            ks == strings_model(keys@),
            member_views(out@) == style_entries(ks.take(i as int), member_views(bm@), member_views(hm@), strings_model(ig@)),
        decreases keys.len() - i,
    {
        let ghost pre = out@;
        assert(ks.take(i + 1).drop_last() =~= ks.take(i as int));
        assert(ks.take(i + 1).last() == keys@[i as int]@);
        let k = &keys[i];
        let props = prop_diff_exec(lookup(bm, k), lookup(hm, k), ig);
        proof {
            lemma_member_views(props@);
        }
        if props.len() > 0 {
            out.push((k.clone(), Json::Object(props)));
            proof {
                lemma_push_member(pre, out@.last());
                assert(out@ == pre.push(out@.last()));
            }
        }
        i = i + 1;
    }
    assert(ks.take(keys.len() as int) =~= ks);
    out
}

fn style_diff_exec(
    b: Option<&Vec<(String, Json)>>,
    h: Option<&Vec<(String, Json)>>,
    ig: &Vec<String>,
) -> (r: Option<Json>)
    ensures
        oview(r) == style_diff(opt_members(b), opt_members(h), strings_model(ig@)),
{
    let empty: Vec<(String, Json)> = Vec::new();
    proof {
        lemma_empty_members(empty@);
    }
    let bm = match b {
        Some(m) => m,
        None => &empty,
    };
    let hm = match h {
        Some(m) => m,
        None => &empty,
    };
    assert(or_empty(opt_members(b)) == member_views(bm@));
    assert(or_empty(opt_members(h)) == member_views(hm@));
    let keys = union_keys_exec(bm, hm);
    let e = style_entries_exec(&keys, bm, hm, ig);
    proof {
        lemma_member_views(e@);
    }
    if e.len() == 0 {
        None
    } else {
        Some(Json::Object(e))
    }
}

fn members_exec<'a>(v: Option<&'a Json>) -> (r: Option<&'a Vec<(String, Json)>>)
    ensures
        opt_members(r) == members_of(opt_json_view(v)),
{
    match v {
        Some(Json::Object(m)) => Some(m),
        _ => None,
    }
}

fn pseudo_entries_exec(
    keys: &Vec<String>,
    bm: &Vec<(String, Json)>,
    hm: &Vec<(String, Json)>,
    ig: &Vec<String>,
) -> (r: Vec<(String, Json)>)
    ensures
        member_views(r@) == pseudo_entries(
            strings_model(keys@),
            member_views(bm@),
            member_views(hm@),
            strings_model(ig@),
        ),
{
    let ghost ks = strings_model(keys@);
    let mut out: Vec<(String, Json)> = Vec::new();
    let mut i: usize = 0;
    while i < keys.len()
        invariant
            i <= keys.len(),
            ks == strings_model(keys@),
            member_views(out@) == pseudo_entries(ks.take(i as int), member_views(bm@), member_views(hm@), strings_model(ig@)),
        decreases keys.len() - i,
    {
        let ghost pre = out@;
        assert(ks.take(i + 1).drop_last() =~= ks.take(i as int));
        assert(ks.take(i + 1).last() == keys@[i as int]@);
        let k = &keys[i];
        let d = style_diff_exec(members_exec(lookup(bm, k)), members_exec(lookup(hm, k)), ig);
        match d {
            Some(x) => {
                out.push((k.clone(), x));
                proof {
                    lemma_push_member(pre, out@.last());
                    assert(out@ == pre.push(out@.last()));
                }
            },
            None => {},
        }
        i = i + 1;
    }
    assert(ks.take(keys.len() as int) =~= ks);
    out
}

fn pseudo_diff_exec(
    b: Option<&Vec<(String, Json)>>,
    h: Option<&Vec<(String, Json)>>,
    ig: &Vec<String>,
) -> (r: Option<Json>)
    ensures
        oview(r) == pseudo_diff(opt_members(b), opt_members(h), strings_model(ig@)),
{
    let empty: Vec<(String, Json)> = Vec::new();
    proof {
        lemma_empty_members(empty@);
    }
    let bm = match b {
        Some(m) => m,
        None => &empty,
    };
    let hm = match h {
        Some(m) => m,
        None => &empty,
    };
    assert(or_empty(opt_members(b)) == member_views(bm@));
    assert(or_empty(opt_members(h)) == member_views(hm@));
    let keys = union_keys_exec(bm, hm);
    let e = pseudo_entries_exec(&keys, bm, hm, ig);
    proof {
        lemma_member_views(e@);
    }
    if e.len() == 0 {
        None
    } else {
        Some(Json::Object(e))
    }
}

fn object_diff_exec(b: Option<&Json>, h: Option<&Json>) -> (r: Option<Json>)
    ensures
        oview(r) == object_diff(opt_json_view(b), opt_json_view(h)),
    decreases osize(opt_json_view(b)) + osize(opt_json_view(h)),
{
    if opt_json_eq(b, h) {
        return None;
    }
    match (b, h) {
        (Some(Json::Object(xm)), Some(Json::Object(ym))) => {
            let keys = union_keys_exec(xm, ym);
            let ghost ks = strings_model(keys@);
            let ghost xv = member_views(xm@);
            let ghost yv = member_views(ym@);
            let mut out: Vec<(String, Json)> = Vec::new();
            let mut i: usize = 0;
            while i < keys.len()
                invariant
                    i <= keys.len(),
                    ks == strings_model(keys@),
                    xv == member_views(xm@),
                    yv == member_views(ym@),
                    opt_json_view(b) == Some(JsonView::Object(xv)),
                    opt_json_view(h) == Some(JsonView::Object(yv)),
                    member_views(out@) == object_entries(ks.take(i as int), xv, yv),
                decreases keys.len() - i,
            {
                let ghost pre = out@;
                assert(ks.take(i + 1).drop_last() =~= ks.take(i as int));
                assert(ks.take(i + 1).last() == keys@[i as int]@);
                let k = &keys[i];
                let bv = lookup(xm, k);
                let hv = lookup(ym, k);
                proof {
                    lemma_mget_size(xv, k@);
                    lemma_mget_size(yv, k@);
                }
                match object_diff_exec(bv, hv) {
                    Some(d) => {
                        out.push((k.clone(), d));
                        proof {
                            lemma_push_member(pre, out@.last());
                            assert(out@ == pre.push(out@.last()));
                        }
                    },
                    None => {},
                }
                i = i + 1;
            }
            assert(ks.take(keys.len() as int) =~= ks);
            proof {
                lemma_member_views(out@);
            }
            if out.len() == 0 {
                None
            } else {
                Some(Json::Object(out))
            }
        },
        _ => Some(before_after_exec(b, h)),
    }
}

fn changed_pair_exec(b: Option<&Json>, h: Option<&Json>) -> (r: Option<Json>)
    ensures
        oview(r) == changed_pair(opt_json_view(b), opt_json_view(h)),
{
    if opt_json_eq(b, h) {
        None
    } else {
        Some(before_after_exec(b, h))
    }
}

fn bool_of_exec(v: Option<&Json>) -> (r: Option<Json>)
    ensures
        oview(r) == bool_of(opt_json_view(v)),
{
    match v {
        Some(Json::Bool(x)) => Some(Json::Bool(*x)),
        _ => None,
    }
}

fn put_exec(f: &mut Vec<(String, Json)>, k: &str, d: Option<Json>)
    ensures
        member_views(final(f)@) == put(member_views(old(f)@), k@, oview(d)),
{
    match d {
        Some(x) => {
            let ghost pre = f@;
            f.push((text(k), x));
            proof {
                lemma_push_member(pre, f@.last());
                assert(f@ == pre.push(f@.last()));
            }
        },
        None => {},
    }
}

/// The differing facets of a matched node pair (see `node_changes`).
pub fn node_changes_exec(b: &Json, h: &Json, ig: &Vec<String>) -> (r: Option<Json>)
    ensures
        oview(r) == node_changes(json_view(*b), json_view(*h), strings_model(ig@)),
{
    let ghost bv = json_view(*b);
    let ghost hv = json_view(*h);
    let ghost igv = strings_model(ig@);
    let mut f: Vec<(String, Json)> = Vec::new();
    proof {
        lemma_empty_members(f@);
    }
    let d = style_diff_exec(members_exec(get(b, "styles")), members_exec(get(h, "styles")), ig);
    assert(oview(d) == style_diff(members_of(jget(bv, "styles"@)), members_of(jget(hv, "styles"@)), igv));
    put_exec(&mut f, "styles", d);
    let d = pseudo_diff_exec(members_exec(get(b, "pseudo")), members_exec(get(h, "pseudo")), ig);
    assert(oview(d) == pseudo_diff(members_of(jget(bv, "pseudo"@)), members_of(jget(hv, "pseudo"@)), igv));
    put_exec(&mut f, "pseudo", d);
    let d = changed_pair_exec(get(b, "rect"), get(h, "rect"));
    put_exec(&mut f, "rect", d);
    let d = changed_pair_exec(get(b, "metrics"), get(h, "metrics"));
    put_exec(&mut f, "metrics", d);
    let vb = bool_of_exec(get(b, "is_visible"));
    let vh = bool_of_exec(get(h, "is_visible"));
    let d = changed_pair_exec(opt_ref(&vb), opt_ref(&vh));
    assert(oview(d) == changed_pair(bool_of(jget(bv, "is_visible"@)), bool_of(jget(hv, "is_visible"@))));
    put_exec(&mut f, "is_visible", d);
    let d = object_diff_exec(get(b, "aria"), get(h, "aria"));
    put_exec(&mut f, "aria", d);
    let d = object_diff_exec(get(b, "contrast"), get(h, "contrast"));
    put_exec(&mut f, "contrast", d);
    let d = object_diff_exec(get(b, "ax"), get(h, "ax"));
    put_exec(&mut f, "ax", d);
    assert(member_views(f@) == put(
        put(
            put(put(put(put(put(put(Seq::empty(), "styles"@, style_diff(members_of(jget(bv, "styles"@)), members_of(jget(hv, "styles"@)), igv)), "pseudo"@, pseudo_diff(members_of(jget(bv, "pseudo"@)), members_of(jget(hv, "pseudo"@)), igv)), "rect"@, changed_pair(jget(bv, "rect"@), jget(hv, "rect"@))), "metrics"@, changed_pair(jget(bv, "metrics"@), jget(hv, "metrics"@))), "is_visible"@, changed_pair(bool_of(jget(bv, "is_visible"@)), bool_of(jget(hv, "is_visible"@)))), "aria"@, object_diff(jget(bv, "aria"@), jget(hv, "aria"@))),
            "contrast"@,
            object_diff(jget(bv, "contrast"@), jget(hv, "contrast"@)),
        ),
        "ax"@,
        object_diff(jget(bv, "ax"@), jget(hv, "ax"@)),
    ));
    proof {
        lemma_member_views(f@);
    }
    if f.len() == 0 {
        None
    } else {
        Some(Json::Object(f))
    }
}

// ---------------------------------------------------------------------------
// Delta lines
// ---------------------------------------------------------------------------

/// What happened to a node.
#[derive(Debug, Clone, Copy, PartialEq, Eq, Structural)]
pub enum DeltaStatus {
    Changed,
    Added,
    Removed,
}

impl DeltaStatus {
    /// The status as written in a delta line.
    pub fn as_str(&self) -> (r: &'static str)
        ensures
            r@ == status_text(*self),
    {
        match self {
            DeltaStatus::Changed => "CHANGED",
            DeltaStatus::Added => "ADDED",
            DeltaStatus::Removed => "REMOVED",
        }
    }
}

pub open spec fn status_text(s: DeltaStatus) -> Seq<char> {
    match s {
        DeltaStatus::Changed => "CHANGED"@,
        DeltaStatus::Added => "ADDED"@,
        DeltaStatus::Removed => "REMOVED"@,
    }
}

/// One delta line: a node that changed, was added or was removed. A
/// changed node carries its property-level differences, an added or
/// removed one its full style snapshot.
#[derive(Debug)]
pub struct DeltaLine {
    pub status: DeltaStatus,
    pub selector: String,
    pub tag: Option<String>,
    pub path: Option<String>,
    pub depth: Option<u64>,
    pub changes: Option<Json>,
    pub snapshot: Option<Json>,
}

/// A delta line with its texts as characters and its JSON by view.
pub struct LineView {
    pub status: DeltaStatus,
    pub selector: Seq<char>,
    pub tag: Option<Seq<char>>,
    pub path: Option<Seq<char>>,
    pub depth: Option<u64>,
    pub changes: Option<JsonView>,
    pub snapshot: Option<JsonView>,
}

pub open spec fn line_view(l: DeltaLine) -> LineView {
    LineView {
        status: l.status,
        selector: l.selector@,
        tag: opt_view(l.tag),
        path: opt_view(l.path),
        depth: l.depth,
        changes: oview(l.changes),
        snapshot: oview(l.snapshot),
    }
}

pub open spec fn line_views(s: Seq<DeltaLine>) -> Seq<LineView> {
    s.map_values(|l: DeltaLine| line_view(l))
}

/// A node's selector, empty when it has none.
pub open spec fn node_selector(v: JsonView) -> Seq<char> {
    match as_text(jget(v, "selector"@)) {
        Some(s) => s,
        None => Seq::empty(),
    }
}

pub open spec fn str_json(t: Option<Seq<char>>) -> Option<JsonView> {
    match t {
        Some(s) => Some(JsonView::Str(s)),
        None => None,
    }
}

pub open spec fn obj_json(m: Option<Seq<(Seq<char>, JsonView)>>) -> Option<JsonView> {
    match m {
        Some(x) => Some(JsonView::Object(x)),
        None => None,
    }
}

/// The node's depth, when it is a whole number that fits.
pub open spec fn depth_json(v: JsonView) -> Option<JsonView> {
    if as_u64(jget(v, "depth"@)) is Some {
        jget(v, "depth"@)
    } else {
        None
    }
}

/// A node's full style snapshot: tag, path, depth, rect, metrics,
/// visibility, styles and pseudo-elements, each when present; no ids and
/// no children.
pub open spec fn snapshot_value(v: JsonView) -> JsonView {
    let m0 = put(Seq::empty(), "tag"@, str_json(as_text(jget(v, "tag"@))));
    let m1 = put(m0, "path"@, str_json(as_text(jget(v, "path"@))));
    let m2 = put(m1, "depth"@, depth_json(v));
    let m3 = put(m2, "rect"@, jget(v, "rect"@));
    let m4 = put(m3, "metrics"@, jget(v, "metrics"@));
    let m5 = put(m4, "is_visible"@, bool_of(jget(v, "is_visible"@)));
    let m6 = put(m5, "styles"@, obj_json(members_of(jget(v, "styles"@))));
    let m7 = put(m6, "pseudo"@, obj_json(members_of(jget(v, "pseudo"@))));
    JsonView::Object(m7)
}

/// A line about the node `v`.
pub open spec fn line_of(status: DeltaStatus, v: JsonView, changes: Option<JsonView>, snapshot: Option<JsonView>) -> LineView {
    LineView {
        status,
        selector: node_selector(v),
        tag: as_text(jget(v, "tag"@)),
        path: as_text(jget(v, "path"@)),
        depth: as_u64(jget(v, "depth"@)),
        changes,
        snapshot,
    }
}

// ---------------------------------------------------------------------------
// The forest diff
// ---------------------------------------------------------------------------

pub open spec fn nsize(n: SnapView) -> nat
    decreases n,
{
    1 + fsize(n.children)
}

/// The number of nodes of a forest.
pub open spec fn fsize(s: Seq<SnapView>) -> nat
    decreases s,
{
    if s.len() == 0 {
        0
    } else {
        fsize(s.drop_last()) + nsize(s.last())
    }
}

pub proof fn lemma_fsize_elem(s: Seq<SnapView>, i: int)
    requires
        0 <= i < s.len(),
    ensures
        nsize(s[i]) <= fsize(s),
    decreases s.len(),
{
    if i < s.len() - 1 {
        lemma_fsize_elem(s.drop_last(), i);
    }
}

proof fn lemma_fsize_prefix(s: Seq<SnapView>, k: int)
    requires
        0 <= k <= s.len(),
    ensures
        fsize(s.take(k)) <= fsize(s),
    decreases s.len(),
{
    if k < s.len() {
        lemma_fsize_prefix(s.drop_last(), k);
        assert(s.drop_last().take(k) =~= s.take(k));
    } else {
        assert(s.take(k) =~= s);
    }
}

pub open spec fn selectors(s: Seq<SnapView>) -> Seq<Seq<char>> {
    s.map_values(|n: SnapView| node_selector(n.value))
}

/// The delta lines of two sibling lists: siblings are matched by selector,
/// then by position; each base sibling in order gives the lines of its
/// match, or a removal when it has none; then each unmatched head sibling
/// gives an addition. Additions and removals are left out when
/// `structural_off` is set.
pub open spec fn list_lines(bs: Seq<SnapView>, hs: Seq<SnapView>, ig: Seq<Seq<char>>, structural_off: bool) -> Seq<
    LineView,
>
    decreases fsize(bs), 3nat, 0int,
{
    let m = sibling_matches(selectors(bs), selectors(hs));
    base_lines(bs, hs, m, ig, structural_off, bs.len() as int) + added_lines(hs, m, structural_off, hs.len() as int)
}

/// The lines of the first `k` base siblings.
pub open spec fn base_lines(
    bs: Seq<SnapView>,
    hs: Seq<SnapView>,
    m: Seq<Option<int>>,
    ig: Seq<Seq<char>>,
    structural_off: bool,
    k: int,
) -> Seq<LineView>
    decreases fsize(bs), 2nat, k,
{
    if k <= 0 || k > bs.len() {
        Seq::empty()
    } else {
        let prev = base_lines(bs, hs, m, ig, structural_off, k - 1);
        proof {
            lemma_fsize_elem(bs, k - 1);
        }
        let here = match m[k - 1] {
            Some(h) => node_lines(bs[k - 1], hs[h], ig, structural_off),
            None => if structural_off {
                Seq::empty()
            } else {
                seq![line_of(DeltaStatus::Removed, bs[k - 1].value, None, Some(snapshot_value(bs[k - 1].value)))]
            },
        };
        prev + here
    }
}

/// The lines of a matched pair: the node's own changes, then its
/// children's lines.
pub open spec fn node_lines(b: SnapView, h: SnapView, ig: Seq<Seq<char>>, structural_off: bool) -> Seq<LineView>
    decreases nsize(b), 1nat, 0int,
{
    let own = match node_changes(b.value, h.value, ig) {
        Some(c) => seq![line_of(DeltaStatus::Changed, h.value, Some(c), None)],
        None => Seq::empty(),
    };
    own + list_lines(b.children, h.children, ig, structural_off)
}

/// The additions among the first `k` head siblings.
pub open spec fn added_lines(hs: Seq<SnapView>, m: Seq<Option<int>>, structural_off: bool, k: int) -> Seq<LineView>
    decreases k,
{
    if k <= 0 || k > hs.len() {
        Seq::empty()
    } else {
        let prev = added_lines(hs, m, structural_off, k - 1);
        if !structural_off && !head_matched(m, k - 1) {
            prev.push(line_of(DeltaStatus::Added, hs[k - 1].value, None, Some(snapshot_value(hs[k - 1].value))))
        } else {
            prev
        }
    }
}

/// How many lines have status `st`.
pub open spec fn count_status(s: Seq<LineView>, st: DeltaStatus) -> nat
    decreases s.len(),
{
    if s.len() == 0 {
        0
    } else {
        count_status(s.drop_last(), st) + if s.last().status == st {
            1nat
        } else {
            0nat
        }
    }
}

// ---------------------------------------------------------------------------
// Executable forest diff
// ---------------------------------------------------------------------------

pub(crate) fn text_member(v: &Json, k: &str) -> (r: Option<String>)
    ensures
        opt_view(r) == as_text(jget(json_view(*v), k@)),
{
    match get(v, k) {
        Some(Json::Str(s)) => Some(s.clone()),
        _ => None,
    }
}

fn str_json_exec(t: Option<String>) -> (r: Option<Json>)
    ensures
        oview(r) == str_json(opt_view(t)),
{
    match t {
        Some(s) => Some(Json::Str(s)),
        None => None,
    }
}

fn clone_opt(v: Option<&Json>) -> (r: Option<Json>)
    ensures
        oview(r) == opt_json_view(v),
{
    match v {
        Some(x) => Some(clone_json(x)),
        None => None,
    }
}

fn obj_clone(v: Option<&Json>) -> (r: Option<Json>)
    ensures
        oview(r) == obj_json(members_of(opt_json_view(v))),
{
    match v {
        Some(x) => match x {
            Json::Object(_) => Some(clone_json(x)),
            _ => None,
        },
        None => None,
    }
}

fn snapshot_exec(v: &Json) -> (r: Json)
    ensures
        json_view(r) == snapshot_value(json_view(*v)),
{
    let ghost vv = json_view(*v);
    let mut m: Vec<(String, Json)> = Vec::new();
    proof {
        lemma_empty_members(m@);
    }
    put_exec(&mut m, "tag", str_json_exec(text_member(v, "tag")));
    put_exec(&mut m, "path", str_json_exec(text_member(v, "path")));
    let dv = get(v, "depth");
    let d = if as_u64_exec(dv).is_some() {
        clone_opt(dv)
    } else {
        None
    };
    assert(oview(d) == depth_json(vv));
    put_exec(&mut m, "depth", d);
    put_exec(&mut m, "rect", clone_opt(get(v, "rect")));
    put_exec(&mut m, "metrics", clone_opt(get(v, "metrics")));
    put_exec(&mut m, "is_visible", bool_of_exec(get(v, "is_visible")));
    put_exec(&mut m, "styles", obj_clone(get(v, "styles")));
    put_exec(&mut m, "pseudo", obj_clone(get(v, "pseudo")));
    Json::Object(m)
}

pub(crate) fn selector_of(v: &Json) -> (r: String)
    ensures
        r@ == node_selector(json_view(*v)),
{
    match text_member(v, "selector") {
        Some(s) => s,
        None => String::new(),
    }
}

fn line_exec(status: DeltaStatus, v: &Json, changes: Option<Json>, snapshot: Option<Json>) -> (r: DeltaLine)
    ensures
        line_view(r) == line_of(status, json_view(*v), oview(changes), oview(snapshot)),
{
    DeltaLine {
        status,
        selector: selector_of(v),
        tag: text_member(v, "tag"),
        path: text_member(v, "path"),
        depth: as_u64_exec(get(v, "depth")),
        changes,
        snapshot,
    }
}

fn selectors_exec(ns: &Vec<SnapNode>) -> (r: Vec<String>)
    ensures
        strings_model(r@) == selectors(snap_views(ns@)),
{
    proof {
        lemma_snap_views(ns@);
    }
    let mut out: Vec<String> = Vec::new();
    let mut i: usize = 0;
    while i < ns.len()
        invariant
            i <= ns.len(),
            snap_views(ns@).len() == ns@.len(),
            forall|q: int| 0 <= q < ns@.len() ==> #[trigger] snap_views(ns@)[q] == snap_view(ns@[q]),
            strings_model(out@) =~= selectors(snap_views(ns@)).take(i as int),
        decreases ns.len() - i,
    {
        let sel = selector_of(&ns[i].value);
        let ghost pre = out@;
        out.push(sel);
        assert(snap_views(ns@)[i as int].value == json_view(ns@[i as int].value));
        assert(selectors(snap_views(ns@))[i as int] == sel@);
        assert(strings_model(out@) =~= strings_model(pre).push(sel@));
        assert(strings_model(out@) =~= selectors(snap_views(ns@)).take(i + 1));
        i = i + 1;
    }
    assert(selectors(snap_views(ns@)).take(ns.len() as int) =~= selectors(snap_views(ns@)));
    out
}

/// Which head siblings some base sibling is matched with.
fn matched_heads(m: &Vec<Option<usize>>, n: usize) -> (r: Vec<bool>)
    ensures
        r@.len() == n,
        forall|h: int| 0 <= h < n ==> (#[trigger] r@[h] <==> head_matched(matches_model(m@), h)),
{
    let mut used: Vec<bool> = Vec::new();
    let mut k: usize = 0;
    while k < n
        invariant
            k <= n,
            used@ == Seq::new(k as nat, |_i: int| false),
        decreases n - k,
    {
        used.push(false);
        assert(used@ =~= Seq::new((k + 1) as nat, |_i: int| false));
        k = k + 1;
    }
    let ghost mm = matches_model(m@);
    let mut i: usize = 0;
    while i < m.len()
        invariant
            i <= m.len(),
            used@.len() == n,
            mm == matches_model(m@),
            mm.len() == m@.len(),
            forall|h: int|
                0 <= h < n ==> (#[trigger] used@[h] <==> exists|j: int| 0 <= j < i && mm[j] == Some(h)),
        decreases m.len() - i,
    {
        let ghost pre = used@;
        assert(mm[i as int] == match m@[i as int] {
            Some(h) => Some(h as int),
            None => None::<int>,
        });
        match m[i] {
            Some(h) => {
                if h < n {
                    used.set(h, true);
                }
            },
            None => {},
        }
        assert forall|h: int| 0 <= h < n implies (#[trigger] used@[h] <==> exists|j: int|
            0 <= j < i + 1 && mm[j] == Some(h)) by {
            if mm[i as int] == Some(h) {
                assert(used@[h]);
            } else {
                assert(used@[h] == pre[h]);
                if exists|j: int| 0 <= j < i + 1 && mm[j] == Some(h) {
                    let j = choose|j: int| 0 <= j < i + 1 && mm[j] == Some(h);
                    assert(j < i);
                }
            }
        }
        i = i + 1;
    }
    used
}

proof fn lemma_push_line(s: Seq<DeltaLine>, x: DeltaLine)
    ensures
        line_views(s.push(x)) == line_views(s).push(line_view(x)),
{
    assert(line_views(s.push(x)) =~= line_views(s).push(line_view(x)));
}

fn diff_list(
    bs: &Vec<SnapNode>,
    hs: &Vec<SnapNode>,
    ig: &Vec<String>,
    structural_off: bool,
    out: &mut Vec<DeltaLine>,
)
    ensures
        line_views(final(out)@) == line_views(old(out)@) + list_lines(
            snap_views(bs@),
            snap_views(hs@),
            strings_model(ig@),
            structural_off,
        ),
    decreases fsize(snap_views(bs@)), 3nat, 0int,
{
    let ghost bv = snap_views(bs@);
    let ghost hv = snap_views(hs@);
    let ghost igv = strings_model(ig@);
    let ghost start = line_views(out@);
    proof {
        lemma_snap_views(bs@);
        lemma_snap_views(hs@);
    }
    let bsel = selectors_exec(bs);
    let hsel = selectors_exec(hs);
    let m = match_siblings(&bsel, &hsel);
    let ghost mm = sibling_matches(selectors(bv), selectors(hv));
    proof {
        lemma_sibling_matches(selectors(bv), selectors(hv));
    }
    assert(matches_model(m@) == mm);
    let mut i: usize = 0;
    while i < bs.len()
        invariant
            i <= bs.len(),
            bv == snap_views(bs@),
            hv == snap_views(hs@),
            igv == strings_model(ig@),
            bv.len() == bs@.len(),
            hv.len() == hs@.len(),
            forall|q: int| 0 <= q < bs@.len() ==> #[trigger] bv[q] == snap_view(bs@[q]),
            forall|q: int| 0 <= q < hs@.len() ==> #[trigger] hv[q] == snap_view(hs@[q]),
            matches_model(m@) == mm,
            m@.len() == bs@.len(),
            mm.len() == bs@.len(),
            forall|q: int| 0 <= q < bs@.len() && #[trigger] mm[q] is Some ==> 0 <= mm[q]->0 < hs@.len(),
            line_views(out@) == start + base_lines(bv, hv, mm, igv, structural_off, i as int),
        decreases bs.len() - i,
    {
        let ghost pre = line_views(out@);
        assert(mm[i as int] == match m@[i as int] {
            Some(h) => Some(h as int),
            None => None::<int>,
        });
        proof {
            lemma_fsize_elem(bv, i as int);
        }
        match m[i] {
            Some(h) => {
                assert(h < hs.len());
                diff_node(&bs[i], &hs[h], ig, structural_off, out);
            },
            None => {
                if !structural_off {
                    let snap = snapshot_exec(&bs[i].value);
                    let line = line_exec(DeltaStatus::Removed, &bs[i].value, None, Some(snap));
                    let ghost o = out@;
                    out.push(line);
                    proof {
                        lemma_push_line(o, line);
                        assert(seq![line_view(line)] =~= Seq::empty().push(line_view(line)));
                    }
                }
            },
        }
        assert(line_views(out@) =~= start + base_lines(bv, hv, mm, igv, structural_off, i + 1));
        i = i + 1;
    }
    let used = matched_heads(&m, hs.len());
    let ghost mid = line_views(out@);
    let mut j: usize = 0;
    while j < hs.len()
        invariant
            j <= hs.len(),
            hv == snap_views(hs@),
            hv.len() == hs@.len(),
            forall|q: int| 0 <= q < hs@.len() ==> #[trigger] hv[q] == snap_view(hs@[q]),
            used@.len() == hs.len(),
            forall|h: int| 0 <= h < hs.len() ==> (#[trigger] used@[h] <==> head_matched(mm, h)),
            line_views(out@) == mid + added_lines(hv, mm, structural_off, j as int),
        decreases hs.len() - j,
    {
        if !structural_off && !used[j] {
            let snap = snapshot_exec(&hs[j].value);
            let line = line_exec(DeltaStatus::Added, &hs[j].value, None, Some(snap));
            let ghost o = out@;
            out.push(line);
            proof {
                lemma_push_line(o, line);
            }
        }
        assert(line_views(out@) =~= mid + added_lines(hv, mm, structural_off, j + 1));
        j = j + 1;
    }
    assert(line_views(out@) =~= start + list_lines(bv, hv, igv, structural_off));
}

fn diff_node(b: &SnapNode, h: &SnapNode, ig: &Vec<String>, structural_off: bool, out: &mut Vec<DeltaLine>)
    ensures
        line_views(final(out)@) == line_views(old(out)@) + node_lines(
            snap_view(*b),
            snap_view(*h),
            strings_model(ig@),
            structural_off,
        ),
    decreases nsize(snap_view(*b)), 1nat, 0int,
{
    let ghost start = line_views(out@);
    let c = node_changes_exec(&b.value, &h.value, ig);
    match c {
        Some(x) => {
            let line = line_exec(DeltaStatus::Changed, &h.value, Some(x), None);
            let ghost o = out@;
            out.push(line);
            proof {
                lemma_push_line(o, line);
            }
        },
        None => {},
    }
    diff_list(&b.children, &h.children, ig, structural_off, out);
    assert(line_views(out@) =~= start + node_lines(snap_view(*b), snap_view(*h), strings_model(ig@), structural_off));
}

fn count_nodes(ns: &Vec<SnapNode>) -> (r: usize)
    requires
        fsize(snap_views(ns@)) <= usize::MAX,
    ensures
        r == fsize(snap_views(ns@)),
    decreases fsize(snap_views(ns@)),
{
    proof {
        lemma_snap_views(ns@);
    }
    let ghost sv = snap_views(ns@);
    let mut total: usize = 0;
    let mut i: usize = 0;
    while i < ns.len()
        invariant
            i <= ns.len(),
            sv == snap_views(ns@),
            sv.len() == ns@.len(),
            forall|q: int| 0 <= q < ns@.len() ==> #[trigger] sv[q] == snap_view(ns@[q]),
            fsize(sv) <= usize::MAX,
            total == fsize(sv.take(i as int)),
        decreases ns.len() - i,
    {
        proof {
            lemma_fsize_prefix(sv, i + 1);
            lemma_fsize_elem(sv, i as int);
            assert(sv.take(i + 1).drop_last() =~= sv.take(i as int));
        }
        let c = count_nodes(&ns[i].children);
        total = total + 1 + c;
        i = i + 1;
    }
    assert(sv.take(ns.len() as int) =~= sv);
    total
}

fn count_lines(lines: &Vec<DeltaLine>, st: DeltaStatus) -> (r: usize)
    ensures
        r == count_status(line_views(lines@), st),
{
    let ghost lv = line_views(lines@);
    let mut n: usize = 0;
    let mut i: usize = 0;
    while i < lines.len()
        invariant
            i <= lines.len(),
            lv == line_views(lines@),
            lv.len() == lines@.len(),
            n == count_status(lv.take(i as int), st),
            n <= i,
        decreases lines.len() - i,
    {
        assert(lv.take(i + 1).drop_last() =~= lv.take(i as int));
        assert(lv[i as int] == line_view(lines@[i as int]));
        if lines[i].status == st {
            n = n + 1;
        }
        i = i + 1;
    }
    assert(lv.take(lines.len() as int) =~= lv);
    n
}

/// Diff two snapshot forests: the delta lines in pre-order (see
/// `list_lines`) and the counters of the run. Values are compared
/// exactly; `ignore_props` names properties whose changes are never
/// reported, and `ignore_structural` leaves out additions and removals.
pub fn diff_forests(
    base: &Vec<SnapNode>,
    head: &Vec<SnapNode>,
    ignore_props: &Vec<String>,
    ignore_structural: bool,
) -> (r: (Vec<DeltaLine>, DiffStats))
    requires
        fsize(snap_views(base@)) <= usize::MAX,
        fsize(snap_views(head@)) <= usize::MAX,
    ensures
        line_views(r.0@) == list_lines(
            snap_views(base@),
            snap_views(head@),
            strings_model(ignore_props@),
            ignore_structural,
        ),
        r.1.changed == count_status(line_views(r.0@), DeltaStatus::Changed),
        r.1.added == count_status(line_views(r.0@), DeltaStatus::Added),
        r.1.removed == count_status(line_views(r.0@), DeltaStatus::Removed),
        r.1.base_nodes == fsize(snap_views(base@)),
        r.1.head_nodes == fsize(snap_views(head@)),
{
    let mut out: Vec<DeltaLine> = Vec::new();
    assert(line_views(out@) =~= Seq::<LineView>::empty());
    diff_list(base, head, ignore_props, ignore_structural, &mut out);
    assert(line_views(out@) =~= list_lines(
        snap_views(base@),
        snap_views(head@),
        strings_model(ignore_props@),
        ignore_structural,
    ));
    let stats = DiffStats {
        changed: count_lines(&out, DeltaStatus::Changed),
        added: count_lines(&out, DeltaStatus::Added),
        removed: count_lines(&out, DeltaStatus::Removed),
        base_nodes: count_nodes(base),
        head_nodes: count_nodes(head),
    };
    (out, stats)
}


// ---------------------------------------------------------------------------
// Laws
// ---------------------------------------------------------------------------

proof fn lemma_prop_entries_self(keys: Seq<Seq<char>>, m: Seq<(Seq<char>, JsonView)>, ig: Seq<Seq<char>>)
    ensures
        prop_entries(keys, m, m, ig) == Seq::<(Seq<char>, JsonView)>::empty(),
    decreases keys.len(),
{
    if keys.len() > 0 {
        lemma_prop_entries_self(keys.drop_last(), m, ig);
    }
}

proof fn lemma_prop_diff_self(v: Option<JsonView>, ig: Seq<Seq<char>>)
    ensures
        prop_diff(v, v, ig).len() == 0,
{
    if let Some(JsonView::Object(m)) = v {
        lemma_prop_entries_self(union_keys(m, m), m, ig);
    }
}

proof fn lemma_style_entries_self(keys: Seq<Seq<char>>, m: Seq<(Seq<char>, JsonView)>, ig: Seq<Seq<char>>)
    ensures
        style_entries(keys, m, m, ig) == Seq::<(Seq<char>, JsonView)>::empty(),
    decreases keys.len(),
{
    if keys.len() > 0 {
        lemma_style_entries_self(keys.drop_last(), m, ig);
        lemma_prop_diff_self(mget(m, keys.last()), ig);
    }
}

proof fn lemma_style_diff_self(b: Option<Seq<(Seq<char>, JsonView)>>, ig: Seq<Seq<char>>)
    ensures
        style_diff(b, b, ig) is None,
{
    lemma_style_entries_self(union_keys(or_empty(b), or_empty(b)), or_empty(b), ig);
}

proof fn lemma_pseudo_entries_self(keys: Seq<Seq<char>>, m: Seq<(Seq<char>, JsonView)>, ig: Seq<Seq<char>>)
    ensures
        pseudo_entries(keys, m, m, ig) == Seq::<(Seq<char>, JsonView)>::empty(),
    decreases keys.len(),
{
    if keys.len() > 0 {
        lemma_pseudo_entries_self(keys.drop_last(), m, ig);
        lemma_style_diff_self(members_of(mget(m, keys.last())), ig);
    }
}

/// A node compared with itself has no changes.
pub proof fn lemma_node_changes_self(v: JsonView, ig: Seq<Seq<char>>)
    ensures
        node_changes(v, v, ig) is None,
{
    lemma_style_diff_self(members_of(jget(v, "styles"@)), ig);
    let p = members_of(jget(v, "pseudo"@));
    lemma_pseudo_entries_self(union_keys(or_empty(p), or_empty(p)), or_empty(p), ig);
}

proof fn lemma_first_free_at(hs: Seq<Seq<char>>, used: Seq<bool>, sel: Option<Seq<char>>, i: int, k: int)
    requires
        0 <= i <= k < hs.len(),
        used.len() == hs.len(),
        forall|h: int|
            i <= h < k ==> used[h] || (match sel {
                Some(x) => hs[h] != x,
                None => false,
            }),
        !used[k],
        match sel {
            Some(x) => hs[k] == x,
            None => true,
        },
    ensures
        first_free(hs, used, sel, i) == Some(k),
    decreases k - i,
{
    if i < k {
        lemma_first_free_at(hs, used, sel, i + 1, k);
    }
}

proof fn lemma_selector_pass_self(s: Seq<Seq<char>>, k: int)
    requires
        0 <= k <= s.len(),
    ensures
        selector_pass(s, s, k).0.len() == s.len(),
        selector_pass(s, s, k).1.len() == k,
        forall|j: int|
            0 <= j < k ==> #[trigger] selector_pass(s, s, k).1[j] == (if s[j].len() > 0 {
                Some(j)
            } else {
                None::<int>
            }),
        forall|h: int| 0 <= h < s.len() ==> #[trigger] selector_pass(s, s, k).0[h] == (h < k && s[h].len() > 0),
    decreases k,
{
    if k > 0 {
        lemma_selector_pass_self(s, k - 1);
        let (used, m) = selector_pass(s, s, k - 1);
        let b = s[k - 1];
        if b.len() > 0 {
            assert forall|h: int| 0 <= h < k - 1 implies used[h] || (match Some(b) {
                Some(x) => s[h] != x,
                None => false,
            }) by {
                if s[h].len() > 0 {
                    assert(used[h]);
                } else {
                    assert(s[h].len() != b.len());
                }
            }
            lemma_first_free_at(s, used, Some(b), 0, k - 1);
        }
        let r = selector_pass(s, s, k);
        assert forall|j: int| 0 <= j < k implies #[trigger] r.1[j] == (if s[j].len() > 0 {
            Some(j)
        } else {
            None::<int>
        }) by {
            if j < k - 1 {
                assert(r.1[j] == m[j]);
            }
        }
    } else {
        let r = selector_pass(s, s, k);
        assert forall|h: int| 0 <= h < s.len() implies #[trigger] r.0[h] == (h < k && s[h].len() > 0) by {
            assert(r.0[h] == false);
        }
    }
}

proof fn lemma_position_pass_self(s: Seq<Seq<char>>, used0: Seq<bool>, m0: Seq<Option<int>>, k: int)
    requires
        0 <= k <= s.len(),
        used0.len() == s.len(),
        m0.len() == s.len(),
        forall|j: int| 0 <= j < s.len() ==> #[trigger] m0[j] == (if s[j].len() > 0 {
            Some(j)
        } else {
            None::<int>
        }),
        forall|h: int| 0 <= h < s.len() ==> #[trigger] used0[h] == (s[h].len() > 0),
    ensures
        position_pass(s, used0, m0, k).0.len() == s.len(),
        position_pass(s, used0, m0, k).1.len() == s.len(),
        forall|j: int| 0 <= j < k ==> #[trigger] position_pass(s, used0, m0, k).1[j] == Some(j),
        forall|j: int| k <= j < s.len() ==> #[trigger] position_pass(s, used0, m0, k).1[j] == m0[j],
        forall|h: int|
            0 <= h < s.len() ==> #[trigger] position_pass(s, used0, m0, k).0[h] == (h < k || s[h].len() > 0),
    decreases k,
{
    if k > 0 {
        lemma_position_pass_self(s, used0, m0, k - 1);
        let (used, m) = position_pass(s, used0, m0, k - 1);
        assert(m[k - 1] == m0[k - 1]);
        if m[k - 1] is None {
            assert forall|h: int| 0 <= h < k - 1 implies used[h] || (match None::<Seq<char>> {
                Some(x) => s[h] != x,
                None => false,
            }) by {
                assert(used[h]);
            }
            assert(!used[k - 1]);
            lemma_first_free_at(s, used, None, 0, k - 1);
        }
    }
}

/// Two equal sibling lists are matched one to one, each sibling with its
/// own position.
pub proof fn lemma_sibling_matches_self(s: Seq<Seq<char>>)
    ensures
        sibling_matches(s, s).len() == s.len(),
        forall|i: int| 0 <= i < s.len() ==> #[trigger] sibling_matches(s, s)[i] == Some(i),
{
    let n = s.len() as int;
    lemma_selector_pass_self(s, n);
    let (used, m) = selector_pass(s, s, n);
    lemma_position_pass_self(s, used, m, n);
}

proof fn lemma_added_all_matched(hs: Seq<SnapView>, m: Seq<Option<int>>, st: bool, k: int)
    requires
        0 <= k <= hs.len(),
        m.len() == hs.len(),
        forall|j: int| 0 <= j < hs.len() ==> #[trigger] m[j] == Some(j),
    ensures
        added_lines(hs, m, st, k) == Seq::<LineView>::empty(),
    decreases k,
{
    if k > 0 {
        lemma_added_all_matched(hs, m, st, k - 1);
        assert(m[k - 1] == Some(k - 1));
        assert(head_matched(m, k - 1));
    }
}

proof fn lemma_base_lines_self(
    bs: Seq<SnapView>,
    m: Seq<Option<int>>,
    ig: Seq<Seq<char>>,
    st: bool,
    k: int,
)
    requires
        0 <= k <= bs.len(),
        m.len() == bs.len(),
        forall|j: int| 0 <= j < bs.len() ==> #[trigger] m[j] == Some(j),
    ensures
        base_lines(bs, bs, m, ig, st, k) == Seq::<LineView>::empty(),
    decreases fsize(bs), 2nat, k,
{
    if k > 0 {
        lemma_base_lines_self(bs, m, ig, st, k - 1);
        lemma_fsize_elem(bs, k - 1);
        assert(m[k - 1] == Some(k - 1));
        lemma_node_lines_self(bs[k - 1], ig, st);
        assert(base_lines(bs, bs, m, ig, st, k) =~= Seq::<LineView>::empty());
    }
}

proof fn lemma_node_lines_self(n: SnapView, ig: Seq<Seq<char>>, st: bool)
    ensures
        node_lines(n, n, ig, st) == Seq::<LineView>::empty(),
    decreases nsize(n), 1nat, 0int,
{
    lemma_node_changes_self(n.value, ig);
    lemma_list_lines_self(n.children, ig, st);
    assert(node_lines(n, n, ig, st) =~= Seq::<LineView>::empty());
}

/// Diffing a forest against itself finds nothing: no delta lines, with
/// any ignored properties and either setting of `structural_off`.
pub proof fn lemma_list_lines_self(bs: Seq<SnapView>, ig: Seq<Seq<char>>, structural_off: bool)
    ensures
        list_lines(bs, bs, ig, structural_off) == Seq::<LineView>::empty(),
    decreases fsize(bs), 3nat, 0int,
{
    let sel = selectors(bs);
    lemma_sibling_matches_self(sel);
    let m = sibling_matches(sel, sel);
    lemma_base_lines_self(bs, m, ig, structural_off, bs.len() as int);
    lemma_added_all_matched(bs, m, structural_off, bs.len() as int);
    assert(list_lines(bs, bs, ig, structural_off) =~= Seq::<LineView>::empty());
}


/// Whether every line is a CHANGED line.
pub open spec fn all_changed(s: Seq<LineView>) -> bool {
    forall|i: int| 0 <= i < s.len() ==> (#[trigger] s[i]).status == DeltaStatus::Changed
}

proof fn lemma_all_changed_concat(a: Seq<LineView>, b: Seq<LineView>)
    requires
        all_changed(a),
        all_changed(b),
    ensures
        all_changed(a + b),
{
    assert forall|i: int| 0 <= i < (a + b).len() implies (#[trigger] (a + b)[i]).status == DeltaStatus::Changed by {
        if i < a.len() {
            assert((a + b)[i] == a[i]);
        } else {
            assert((a + b)[i] == b[i - a.len()]);
        }
    }
}

proof fn lemma_added_off(hs: Seq<SnapView>, m: Seq<Option<int>>, k: int)
    ensures
        added_lines(hs, m, true, k) == Seq::<LineView>::empty(),
    decreases k,
{
    if k > 0 && k <= hs.len() {
        lemma_added_off(hs, m, k - 1);
    }
}

proof fn lemma_base_lines_off(bs: Seq<SnapView>, hs: Seq<SnapView>, m: Seq<Option<int>>, ig: Seq<Seq<char>>, k: int)
    ensures
        all_changed(base_lines(bs, hs, m, ig, true, k)),
    decreases fsize(bs), 2nat, k,
{
    if k > 0 && k <= bs.len() {
        lemma_base_lines_off(bs, hs, m, ig, k - 1);
        lemma_fsize_elem(bs, k - 1);
        let here = match m[k - 1] {
            Some(h) => node_lines(bs[k - 1], hs[h], ig, true),
            None => Seq::<LineView>::empty(),
        };
        if let Some(h) = m[k - 1] {
            lemma_node_lines_off(bs[k - 1], hs[h], ig);
        }
        lemma_all_changed_concat(base_lines(bs, hs, m, ig, true, k - 1), here);
    }
}

proof fn lemma_node_lines_off(b: SnapView, h: SnapView, ig: Seq<Seq<char>>)
    ensures
        all_changed(node_lines(b, h, ig, true)),
    decreases nsize(b), 1nat, 0int,
{
    lemma_list_lines_off(b.children, h.children, ig);
    let own = match node_changes(b.value, h.value, ig) {
        Some(c) => seq![line_of(DeltaStatus::Changed, h.value, Some(c), None)],
        None => Seq::<LineView>::empty(),
    };
    lemma_all_changed_concat(own, list_lines(b.children, h.children, ig, true));
}

/// With additions and removals left out, every delta line is a CHANGED
/// line.
pub proof fn lemma_list_lines_off(bs: Seq<SnapView>, hs: Seq<SnapView>, ig: Seq<Seq<char>>)
    ensures
        all_changed(list_lines(bs, hs, ig, true)),
    decreases fsize(bs), 3nat, 0int,
{
    let m = sibling_matches(selectors(bs), selectors(hs));
    lemma_base_lines_off(bs, hs, m, ig, bs.len() as int);
    lemma_added_off(hs, m, hs.len() as int);
    assert(list_lines(bs, hs, ig, true) =~= base_lines(bs, hs, m, ig, true, bs.len() as int));
}

/// Lines that are all CHANGED count no addition and no removal.
pub proof fn lemma_all_changed_counts(s: Seq<LineView>)
    requires
        all_changed(s),
    ensures
        count_status(s, DeltaStatus::Added) == 0,
        count_status(s, DeltaStatus::Removed) == 0,
        count_status(s, DeltaStatus::Changed) == s.len(),
    decreases s.len(),
{
    if s.len() > 0 {
        assert(all_changed(s.drop_last())) by {
            assert forall|i: int| 0 <= i < s.drop_last().len() implies (#[trigger] s.drop_last()[i]).status
                == DeltaStatus::Changed by {
                assert(s.drop_last()[i] == s[i]);
            }
        }
        lemma_all_changed_counts(s.drop_last());
        assert(s[s.len() - 1].status == DeltaStatus::Changed);
    }
}


// ---------------------------------------------------------------------------
// Laws: what a reported difference means
// ---------------------------------------------------------------------------

proof fn lemma_dedup_contains(s: Seq<Seq<char>>)
    ensures
        forall|x: Seq<char>| dedup(s).contains(x) <==> s.contains(x),
    decreases s.len(),
{
    if s.len() > 0 {
        let p = s.drop_last();
        let l = s.last();
        let d = dedup(p);
        lemma_dedup_contains(p);
        assert forall|x: Seq<char>| s.contains(x) <==> (p.contains(x) || x == l) by {
            if s.contains(x) && x != l {
                let i = choose|i: int| 0 <= i < s.len() && s[i] == x;
                assert(p[i] == x);
            }
            if p.contains(x) {
                let i = choose|i: int| 0 <= i < p.len() && p[i] == x;
                assert(s[i] == x);
            }
            if x == l {
                assert(s[s.len() - 1] == x);
            }
        }
        if !d.contains(l) {
            assert forall|x: Seq<char>| d.push(l).contains(x) <==> (d.contains(x) || x == l) by {
                if d.push(l).contains(x) && x != l {
                    let i = choose|i: int| 0 <= i < d.push(l).len() && d.push(l)[i] == x;
                    assert(d[i] == x);
                }
                if d.contains(x) {
                    let i = choose|i: int| 0 <= i < d.len() && d[i] == x;
                    assert(d.push(l)[i] == x);
                }
                if x == l {
                    assert(d.push(l)[d.len() as int] == x);
                }
            }
        }
    }
}

/// The keys of two objects together hold exactly the names of the members
/// of either object.
pub proof fn lemma_union_keys(a: Seq<(Seq<char>, JsonView)>, b: Seq<(Seq<char>, JsonView)>)
    ensures
        forall|k: Seq<char>|
            #![trigger union_keys(a, b).contains(k)]
            union_keys(a, b).contains(k) <==> ((exists|i: int| 0 <= i < a.len() && a[i].0 == k) || (exists|j: int|
                0 <= j < b.len() && b[j].0 == k)),
{
    let all = keys_of(a) + keys_of(b);
    lemma_dedup_contains(all);
    assert forall|k: Seq<char>|
        union_keys(a, b).contains(k) <==> ((exists|i: int| 0 <= i < a.len() && a[i].0 == k) || (exists|j: int|
            0 <= j < b.len() && b[j].0 == k)) by {
        if all.contains(k) {
            let q = choose|q: int| 0 <= q < all.len() && all[q] == k;
            if q < a.len() {
                assert(a[q].0 == k);
            } else {
                assert(b[q - a.len()].0 == k);
            }
        }
        if exists|i: int| 0 <= i < a.len() && a[i].0 == k {
            let i = choose|i: int| 0 <= i < a.len() && a[i].0 == k;
            assert(all[i] == k);
        }
        if exists|j: int| 0 <= j < b.len() && b[j].0 == k {
            let j = choose|j: int| 0 <= j < b.len() && b[j].0 == k;
            assert(all[a.len() + j] == k);
        }
    }
}

/// A member is found by name exactly when some member has that name.
pub proof fn lemma_mget_some(m: Seq<(Seq<char>, JsonView)>, k: Seq<char>)
    ensures
        mget(m, k) is Some <==> exists|i: int| 0 <= i < m.len() && m[i].0 == k,
        mget(m, k) matches Some(v) ==> exists|i: int| 0 <= i < m.len() && m[i].0 == k && m[i].1 == v,
{
    lemma_member_index(m, k, 0);
}

/// Names that no member of either object has are looked up in neither.
proof fn lemma_outside_union(a: Seq<(Seq<char>, JsonView)>, b: Seq<(Seq<char>, JsonView)>, k: Seq<char>)
    requires
        !union_keys(a, b).contains(k),
    ensures
        mget(a, k) is None,
        mget(b, k) is None,
{
    lemma_union_keys(a, b);
    lemma_mget_some(a, k);
    lemma_mget_some(b, k);
}

proof fn lemma_prop_entries_empty(
    keys: Seq<Seq<char>>,
    bm: Seq<(Seq<char>, JsonView)>,
    hm: Seq<(Seq<char>, JsonView)>,
    ig: Seq<Seq<char>>,
)
    requires
        prop_entries(keys, bm, hm, ig).len() == 0,
    ensures
        forall|k: Seq<char>| keys.contains(k) && !ig.contains(k) ==> mget(bm, k) == mget(hm, k),
    decreases keys.len(),
{
    if keys.len() > 0 {
        let p = keys.drop_last();
        lemma_prop_entries_empty(p, bm, hm, ig);
        assert forall|k: Seq<char>| keys.contains(k) && !ig.contains(k) implies mget(bm, k) == mget(hm, k) by {
            let i = choose|i: int| 0 <= i < keys.len() && keys[i] == k;
            if i < keys.len() - 1 {
                assert(p[i] == k);
            }
        }
    }
}

/// No property difference in a style category means: when both sides are
/// objects, every property not ignored has the same value on both sides;
/// when only one side has the category as an object, all its properties
/// are ignored; otherwise the two sides are the same value.
pub proof fn lemma_prop_diff_empty(b: Option<JsonView>, h: Option<JsonView>, ig: Seq<Seq<char>>)
    requires
        prop_diff(b, h, ig).len() == 0,
    ensures
        match (b, h) {
            (Some(JsonView::Object(bm)), Some(JsonView::Object(hm))) => forall|k: Seq<char>|
                !ig.contains(k) ==> mget(bm, k) == mget(hm, k),
            (Some(JsonView::Object(bm)), None) => forall|i: int| 0 <= i < bm.len() ==> ig.contains(#[trigger] bm[i].0),
            (None, Some(JsonView::Object(hm))) => forall|i: int| 0 <= i < hm.len() ==> ig.contains(#[trigger] hm[i].0),
            _ => b == h,
        },
{
    match (b, h) {
        (Some(JsonView::Object(bm)), Some(JsonView::Object(hm))) => {
            lemma_prop_entries_empty(union_keys(bm, hm), bm, hm, ig);
            assert forall|k: Seq<char>| !ig.contains(k) implies mget(bm, k) == mget(hm, k) by {
                if !union_keys(bm, hm).contains(k) {
                    lemma_outside_union(bm, hm, k);
                }
            }
        },
        (Some(JsonView::Object(bm)), None) => {
            lemma_side_entries_empty(bm, ig, true);
        },
        (None, Some(JsonView::Object(hm))) => {
            lemma_side_entries_empty(hm, ig, false);
        },
        _ => {},
    }
}

proof fn lemma_side_entries_empty(m: Seq<(Seq<char>, JsonView)>, ig: Seq<Seq<char>>, base_side: bool)
    requires
        side_entries(m, ig, base_side).len() == 0,
    ensures
        forall|i: int| 0 <= i < m.len() ==> ig.contains(#[trigger] m[i].0),
    decreases m.len(),
{
    if m.len() > 0 {
        lemma_side_entries_empty(m.drop_last(), ig, base_side);
        assert forall|i: int| 0 <= i < m.len() implies ig.contains(#[trigger] m[i].0) by {
            if i < m.len() - 1 {
                assert(m.drop_last()[i] == m[i]);
            }
        }
    }
}

proof fn lemma_style_entries_empty(
    keys: Seq<Seq<char>>,
    bm: Seq<(Seq<char>, JsonView)>,
    hm: Seq<(Seq<char>, JsonView)>,
    ig: Seq<Seq<char>>,
)
    requires
        style_entries(keys, bm, hm, ig).len() == 0,
    ensures
        forall|k: Seq<char>| keys.contains(k) ==> prop_diff(mget(bm, k), mget(hm, k), ig).len() == 0,
    decreases keys.len(),
{
    if keys.len() > 0 {
        let p = keys.drop_last();
        lemma_style_entries_empty(p, bm, hm, ig);
        let l = keys.last();
        assert(prop_diff(mget(bm, l), mget(hm, l), ig).len() == 0);
        assert forall|k: Seq<char>| keys.contains(k) implies prop_diff(mget(bm, k), mget(hm, k), ig).len() == 0 by {
            let i = choose|i: int| 0 <= i < keys.len() && keys[i] == k;
            if i < keys.len() - 1 {
                assert(p[i] == k);
                assert(p.contains(k));
            } else {
                assert(k == l);
            }
        }
    }
}

/// No style difference means no category, of either side, has a property
/// difference.
pub proof fn lemma_style_diff_none(
    b: Option<Seq<(Seq<char>, JsonView)>>,
    h: Option<Seq<(Seq<char>, JsonView)>>,
    ig: Seq<Seq<char>>,
)
    requires
        style_diff(b, h, ig) is None,
    ensures
        forall|k: Seq<char>| prop_diff(mget(or_empty(b), k), mget(or_empty(h), k), ig).len() == 0,
{
    let bm = or_empty(b);
    let hm = or_empty(h);
    lemma_style_entries_empty(union_keys(bm, hm), bm, hm, ig);
    assert forall|k: Seq<char>| prop_diff(mget(bm, k), mget(hm, k), ig).len() == 0 by {
        if !union_keys(bm, hm).contains(k) {
            lemma_outside_union(bm, hm, k);
        }
    }
}

proof fn lemma_pseudo_entries_empty(
    keys: Seq<Seq<char>>,
    bm: Seq<(Seq<char>, JsonView)>,
    hm: Seq<(Seq<char>, JsonView)>,
    ig: Seq<Seq<char>>,
)
    requires
        pseudo_entries(keys, bm, hm, ig).len() == 0,
    ensures
        forall|k: Seq<char>|
            keys.contains(k) ==> style_diff(members_of(mget(bm, k)), members_of(mget(hm, k)), ig) is None,
    decreases keys.len(),
{
    if keys.len() > 0 {
        let p = keys.drop_last();
        lemma_pseudo_entries_empty(p, bm, hm, ig);
        assert forall|k: Seq<char>| keys.contains(k) implies style_diff(
            members_of(mget(bm, k)),
            members_of(mget(hm, k)),
            ig,
        ) is None by {
            let i = choose|i: int| 0 <= i < keys.len() && keys[i] == k;
            if i < keys.len() - 1 {
                assert(p[i] == k);
                assert(p.contains(k));
            } else {
                assert(k == keys.last());
            }
        }
    }
}

/// No pseudo-element difference means no pseudo-element, of either side,
/// has a style difference.
pub proof fn lemma_pseudo_diff_none(
    b: Option<Seq<(Seq<char>, JsonView)>>,
    h: Option<Seq<(Seq<char>, JsonView)>>,
    ig: Seq<Seq<char>>,
)
    requires
        pseudo_diff(b, h, ig) is None,
    ensures
        forall|k: Seq<char>|
            style_diff(members_of(mget(or_empty(b), k)), members_of(mget(or_empty(h), k)), ig) is None,
{
    let bm = or_empty(b);
    let hm = or_empty(h);
    lemma_pseudo_entries_empty(union_keys(bm, hm), bm, hm, ig);
    assert forall|k: Seq<char>| style_diff(members_of(mget(bm, k)), members_of(mget(hm, k)), ig) is None by {
        if !union_keys(bm, hm).contains(k) {
            lemma_outside_union(bm, hm, k);
            let e = style_entries(
                union_keys(or_empty(None), or_empty(None)),
                or_empty(None::<Seq<(Seq<char>, JsonView)>>),
                or_empty(None::<Seq<(Seq<char>, JsonView)>>),
                ig,
            );
            assert(union_keys(Seq::<(Seq<char>, JsonView)>::empty(), Seq::<(Seq<char>, JsonView)>::empty()) =~= Seq::<Seq<char>>::empty());
        }
    }
}

proof fn lemma_object_entries_empty(
    keys: Seq<Seq<char>>,
    xm: Seq<(Seq<char>, JsonView)>,
    ym: Seq<(Seq<char>, JsonView)>,
)
    requires
        object_entries(keys, xm, ym).len() == 0,
    ensures
        forall|k: Seq<char>| keys.contains(k) ==> object_diff(mget(xm, k), mget(ym, k)) is None,
    decreases keys.len(),
{
    if keys.len() > 0 {
        let p = keys.drop_last();
        lemma_object_entries_empty(p, xm, ym);
        assert forall|k: Seq<char>| keys.contains(k) implies object_diff(mget(xm, k), mget(ym, k)) is None by {
            let i = choose|i: int| 0 <= i < keys.len() && keys[i] == k;
            if i < keys.len() - 1 {
                assert(p[i] == k);
                assert(p.contains(k));
            } else {
                assert(k == keys.last());
            }
        }
    }
}

/// No difference between two JSON values means they are the same value,
/// or two objects whose members of every name show no difference: a
/// member present on one side only is always a difference.
pub proof fn lemma_object_diff_none(b: Option<JsonView>, h: Option<JsonView>)
    requires
        object_diff(b, h) is None,
    ensures
        b == h || (b matches Some(JsonView::Object(x)) && h matches Some(JsonView::Object(y)) && forall|k: Seq<char>|
            object_diff(mget(x, k), mget(y, k)) is None),
{
    if b != h {
        if let (Some(JsonView::Object(x)), Some(JsonView::Object(y))) = (b, h) {
            lemma_object_entries_empty(union_keys(x, y), x, y);
            assert forall|k: Seq<char>| object_diff(mget(x, k), mget(y, k)) is None by {
                if !union_keys(x, y).contains(k) {
                    lemma_outside_union(x, y, k);
                }
            }
        }
    }
}

/// A value present on one side only is always a difference.
pub proof fn lemma_object_diff_one_sided(v: JsonView)
    ensures
        object_diff(Some(v), None) == Some(before_after(Some(v), None)),
        object_diff(None, Some(v)) == Some(before_after(None, Some(v))),
{
}

/// A matched node pair is left out of the delta only when every compared
/// facet agrees: the same rect, metrics and visibility, no difference in
/// ARIA, contrast and the accessibility node, and no style or
/// pseudo-element difference.
pub proof fn lemma_node_changes_none(b: JsonView, h: JsonView, ig: Seq<Seq<char>>)
    requires
        node_changes(b, h, ig) is None,
    ensures
        jget(b, "rect"@) == jget(h, "rect"@),
        jget(b, "metrics"@) == jget(h, "metrics"@),
        bool_of(jget(b, "is_visible"@)) == bool_of(jget(h, "is_visible"@)),
        object_diff(jget(b, "aria"@), jget(h, "aria"@)) is None,
        object_diff(jget(b, "contrast"@), jget(h, "contrast"@)) is None,
        object_diff(jget(b, "ax"@), jget(h, "ax"@)) is None,
        style_diff(members_of(jget(b, "styles"@)), members_of(jget(h, "styles"@)), ig) is None,
        pseudo_diff(members_of(jget(b, "pseudo"@)), members_of(jget(h, "pseudo"@)), ig) is None,
{
}

} // verus!
