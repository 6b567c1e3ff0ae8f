//! Loading a computed-style snapshot from its JSON lines.
//!
//! A snapshot is either in tree layout (one root per line, with nested
//! `children`) or flat (one node per line, linked by `id`/`parent_id`);
//! mixing both is an error. `__meta` lines carry the `style_defaults`
//! hoisted out of the nodes and merged back into every node's `styles`
//! (values the node has win); `__ax_tree` and `__actions` lines are not
//! nodes.
use crate::diff::{children_before, forest_links, indices_model, roots_before, DiffError};
use crate::json::{
    as_u64, clone_json, find_member, get, jget, json_view, json_views, jsize, jsizes, lemma_json_views,
    lemma_jsizes_elem, lemma_member_index, lemma_member_views, lemma_msizes_elem, member_index,
    member_views, Json, JsonView,
};
use crate::json::json_line_of;
use crate::text::parse_u64;
use vstd::prelude::*;

verus! {

/// One loaded node: the line's JSON object without its `children`
/// member, and the nodes under it.
#[derive(Debug)]
pub struct SnapNode {
    pub value: Json,
    pub children: Vec<SnapNode>,
}

/// A loaded node with its JSON taken by its view.
pub struct SnapView {
    pub value: JsonView,
    pub children: Seq<SnapView>,
}

pub open spec fn snap_view(n: SnapNode) -> SnapView
    decreases n,
{
    SnapView { value: json_view(n.value), children: snap_views(n.children@) }
}

pub open spec fn snap_views(s: Seq<SnapNode>) -> Seq<SnapView>
    decreases s,
{
    if s.len() == 0 {
        Seq::empty()
    } else {
        snap_views(s.drop_last()).push(snap_view(s.last()))
    }
}

pub proof fn lemma_snap_views(s: Seq<SnapNode>)
    ensures
        snap_views(s).len() == s.len(),
        forall|i: int| 0 <= i < s.len() ==> #[trigger] snap_views(s)[i] == snap_view(s[i]),
    decreases s.len(),
{
    if s.len() > 0 {
        lemma_snap_views(s.drop_last());
    }
}

// ---------------------------------------------------------------------------
// One node from one JSON value
// ---------------------------------------------------------------------------

/// An object without its member `k` (other values unchanged).
pub open spec fn without_member(v: JsonView, k: Seq<char>) -> JsonView {
    match v {
        JsonView::Object(m) => match member_index(m, k, 0) {
            Some(i) => JsonView::Object(m.remove(i)),
            None => v,
        },
        _ => v,
    }
}

/// The node a JSON value reads as: the value without `children`, and the
/// nodes of its `children` array.
pub open spec fn node_of(v: JsonView) -> SnapView
    decreases jsize(v), 1nat,
{
    SnapView {
        value: without_member(v, "children"@),
        children: match v {
            JsonView::Object(m) => match member_index(m, "children"@, 0) {
                Some(i) => match m[i].1 {
                    JsonView::Array(a) => {
                        proof {
                            lemma_member_index(m, "children"@, 0);
                            lemma_msizes_elem(m, i);
                        }
                        nodes_of(a)
                    },
                    _ => Seq::empty(),
                },
                None => Seq::empty(),
            },
            _ => Seq::empty(),
        },
    }
}

/// The nodes of an array of JSON values, in order.
pub open spec fn nodes_of(a: Seq<JsonView>) -> Seq<SnapView>
    decreases jsizes(a), 0nat,
{
    if a.len() == 0 {
        Seq::empty()
    } else {
        nodes_of(a.drop_last()).push(node_of(a.last()))
    }
}

/// Reads one JSON value as a node (`DiffNode::from_value`).
pub fn node_from(v: Json) -> (r: SnapNode)
    ensures
        snap_view(r) == node_of(json_view(v)),
    decreases jsize(json_view(v)), 1nat,
{
    match v {
        Json::Object(m) => {
            let ghost m0 = m@;
            proof {
                lemma_member_views(m0);
            }
            match find_member(&m, "children") {
                Some(i) => {
                    let mut m = m;
                    proof {
                        lemma_member_index(member_views(m0), "children"@, 0);
                        lemma_msizes_elem(member_views(m0), i as int);
                    }
                    let (_name, c) = m.remove(i);
                    assert(member_views(m@) =~= member_views(m0).remove(i as int)) by {
                        lemma_member_views(m@);
                        assert(m@ =~= m0.remove(i as int));
                    }
                    let children = match c {
                        Json::Array(a) => nodes_from(a),
                        _ => Vec::new(),
                    };
                    let r = SnapNode { value: Json::Object(m), children };
                    proof {
                        if !(c is Array) {
                            assert(snap_views(r.children@) =~= Seq::<SnapView>::empty());
                        }
                    }
                    r
                },
                None => {
                    let r = SnapNode { value: Json::Object(m), children: Vec::new() };
                    assert(snap_views(r.children@) =~= Seq::<SnapView>::empty());
                    r
                },
            }
        },
        other => {
            let r = SnapNode { value: other, children: Vec::new() };
            assert(snap_views(r.children@) =~= Seq::<SnapView>::empty());
            r
        },
    }
}

/// Reads an array of JSON values as nodes, in order.
pub fn nodes_from(items: Vec<Json>) -> (r: Vec<SnapNode>)
    ensures
        snap_views(r@) == nodes_of(json_views(items@)),
    decreases jsizes(json_views(items@)), 0nat,
{
    let ghost s = items@;
    let a = items;
    proof {
        lemma_json_views(s);
    }
    let mut a = a;
    let mut out: Vec<SnapNode> = Vec::new();
    let mut k: usize = 0;
    let n = a.len();
    assert(s.skip(0) =~= s);
    assert(json_views(s).take(0) =~= Seq::<JsonView>::empty());
    while k < n
        invariant
            k <= n,
            n == s.len(),
            s == items@,
            a@ == s.skip(k as int),
            json_views(s).len() == s.len(),
            forall|q: int| 0 <= q < s.len() ==> #[trigger] json_views(s)[q] == json_view(s[q]),
            snap_views(out@) == nodes_of(json_views(s).take(k as int)),
        decreases n - k,
    {
        let x = a.remove(0);
        assert(x == s[k as int]);
        assert(a@ =~= s.skip(k + 1));
        proof {
            lemma_jsizes_elem(json_views(s), k as int);
        }
        let node = node_from(x);
        let ghost before = out@;
        out.push(node);
        assert(out@.drop_last() =~= before);
        assert(json_views(s).take(k + 1).drop_last() =~= json_views(s).take(k as int));
        assert(json_views(s).take(k + 1).last() == json_view(s[k as int]));
        k = k + 1;
    }
    assert(json_views(s).take(n as int) =~= json_views(s));
    out
}

/// A deep copy of a node.
pub fn clone_node(n: &SnapNode) -> (r: SnapNode)
    ensures
        snap_view(r) == snap_view(*n),
    decreases *n,
{
    let value = clone_json(&n.value);
    let mut children: Vec<SnapNode> = Vec::new();
    let mut i: usize = 0;
    proof {
        lemma_snap_views(n.children@);
    }
    assert(snap_views(n.children@).take(0) =~= Seq::<SnapView>::empty());
    while i < n.children.len()
        invariant
            i <= n.children.len(),
            snap_views(n.children@).len() == n.children@.len(),
            forall|q: int| 0 <= q < n.children@.len() ==> #[trigger] snap_views(n.children@)[q] == snap_view(n.children@[q]),
            snap_views(children@) == snap_views(n.children@).take(i as int),
        decreases n.children.len() - i,
    {
        proof {
            assert(decreases_to!(*n => n.children));
            assert(decreases_to!(n.children => n.children@));
            assert(decreases_to!(n.children@ => n.children@[i as int]));
        }
        let c = clone_node(&n.children[i]);
        let ghost before = children@;
        children.push(c);
        assert(children@.drop_last() =~= before);
        assert(snap_views(n.children@).take(i + 1) =~= snap_views(n.children@).take(i as int).push(
            snap_view(n.children@[i as int]),
        ));
        i = i + 1;
    }
    assert(snap_views(n.children@).take(n.children.len() as int) =~= snap_views(n.children@));
    SnapNode { value, children }
}

// ---------------------------------------------------------------------------
// The forest of flat lines
// ---------------------------------------------------------------------------

/// Node `i` of the flat lines with, under it, the lines that hang under
/// it, nested at most `fuel` levels deep.
pub open spec fn build_node(flat: Seq<SnapView>, links: Seq<(u64, Option<u64>)>, i: int, fuel: nat) -> SnapView
    decreases fuel, 0nat,
{
    if fuel == 0 {
        SnapView { value: flat[i].value, children: Seq::empty() }
    } else {
        SnapView {
            value: flat[i].value,
            children: build_list(flat, links, children_before(links, i, links.len() as int), (fuel - 1) as nat),
        }
    }
}

/// The nodes `cs` of the flat lines, each with its subtree.
pub open spec fn build_list(flat: Seq<SnapView>, links: Seq<(u64, Option<u64>)>, cs: Seq<int>, fuel: nat) -> Seq<SnapView>
    decreases fuel, cs.len() + 1,
{
    if cs.len() == 0 {
        Seq::empty()
    } else {
        build_list(flat, links, cs.drop_last(), fuel).push(build_node(flat, links, cs.last(), fuel))
    }
}

/// The forest of flat lines: every line that hangs under no line is a
/// root, with its subtree. (A forest has at most as many levels as it has
/// lines; parent links that run in a circle hang under no root.)
pub open spec fn forest_spec(flat: Seq<SnapView>, links: Seq<(u64, Option<u64>)>) -> Seq<SnapView> {
    build_list(flat, links, roots_before(links, links.len() as int), links.len() as nat)
}

/// What the forest builder needs of the flat lines' shape.
pub open spec fn shape_ok(links: Seq<(u64, Option<u64>)>, roots: Seq<usize>, children: Seq<Vec<usize>>) -> bool {
    &&& indices_model(roots) == roots_before(links, links.len() as int)
    &&& children.len() == links.len()
    &&& forall|p: int| 0 <= p < links.len() ==> indices_model(#[trigger] children[p]@) == children_before(links, p, links.len() as int)
}

proof fn lemma_indices_in_range(links: Seq<(u64, Option<u64>)>, cs: Seq<usize>, p: int, k: int)
    requires
        0 <= k,
        indices_model(cs) == children_before(links, p, k) || indices_model(cs) == roots_before(links, k),
    ensures
        forall|j: int| 0 <= j < cs.len() ==> #[trigger] cs[j] < k,
{
    crate::diff::lemma_indices_below(links, p, k);
    assert forall|j: int| 0 <= j < cs.len() implies #[trigger] cs[j] < k by {
        assert(indices_model(cs)[j] == cs[j] as int);
    }
}

fn build_node_exec(
    flat: &Vec<SnapNode>,
    links: &Vec<(u64, Option<u64>)>,
    children: &Vec<Vec<usize>>,
    i: usize,
    fuel: usize,
) -> (r: SnapNode)
    requires
        flat.len() == links.len(),
        i < flat.len(),
        children.len() == links.len(),
        forall|p: int| 0 <= p < links@.len() ==> indices_model(#[trigger] children@[p]@) == children_before(links@, p, links@.len() as int),
    ensures
        snap_view(r) == build_node(snap_views(flat@), links@, i as int, fuel as nat),
    decreases fuel, 0nat,
{
    proof {
        lemma_snap_views(flat@);
    }
    let value = clone_json(&flat[i].value);
    if fuel == 0 {
        let r = SnapNode { value, children: Vec::new() };
        assert(snap_views(r.children@) =~= Seq::<SnapView>::empty());
        return r;
    }
    proof {
        lemma_indices_in_range(links@, children@[i as int]@, i as int, links@.len() as int);
    }
    let kids = build_list_exec(flat, links, children, &children[i], fuel - 1);
    SnapNode { value, children: kids }
}

fn build_list_exec(
    flat: &Vec<SnapNode>,
    links: &Vec<(u64, Option<u64>)>,
    children: &Vec<Vec<usize>>,
    cs: &Vec<usize>,
    fuel: usize,
) -> (r: Vec<SnapNode>)
    requires
        flat.len() == links.len(),
        children.len() == links.len(),
        forall|p: int| 0 <= p < links@.len() ==> indices_model(#[trigger] children@[p]@) == children_before(links@, p, links@.len() as int),
        forall|j: int| 0 <= j < cs@.len() ==> #[trigger] cs@[j] < links@.len(),
    ensures
        snap_views(r@) == build_list(snap_views(flat@), links@, indices_model(cs@), fuel as nat),
    decreases fuel, cs@.len() + 1,
{
    let mut out: Vec<SnapNode> = Vec::new();
    let mut j: usize = 0;
    assert(indices_model(cs@).take(0) =~= Seq::<int>::empty());
    while j < cs.len()
        invariant
            j <= cs.len(),
            flat.len() == links.len(),
            children.len() == links.len(),
            forall|p: int| 0 <= p < links@.len() ==> indices_model(#[trigger] children@[p]@) == children_before(links@, p, links@.len() as int),
            forall|q: int| 0 <= q < cs@.len() ==> #[trigger] cs@[q] < links@.len(),
            snap_views(out@) == build_list(snap_views(flat@), links@, indices_model(cs@).take(j as int), fuel as nat),
        decreases cs.len() - j,
    {
        let node = build_node_exec(flat, links, children, cs[j], fuel);
        let ghost before = out@;
        out.push(node);
        assert(out@.drop_last() =~= before);
        assert(indices_model(cs@).take(j + 1).drop_last() =~= indices_model(cs@).take(j as int));
        assert(indices_model(cs@).take(j + 1).last() == cs@[j as int] as int);
        j = j + 1;
    }
    assert(indices_model(cs@).take(cs.len() as int) =~= indices_model(cs@));
    out
}

// ---------------------------------------------------------------------------
// Hoisted style defaults
// ---------------------------------------------------------------------------

/// The properties of `entry` added to the category `cm` where it has none
/// of that name.
pub open spec fn merge_props(cm: Seq<(Seq<char>, JsonView)>, entry: Seq<(Seq<char>, JsonView)>) -> Seq<(Seq<char>, JsonView)>
    decreases entry.len(),
{
    if entry.len() == 0 {
        cm
    } else {
        let prev = merge_props(cm, entry.drop_last());
        if member_index(prev, entry.last().0, 0) is Some {
            prev
        } else {
            prev.push(entry.last())
        }
    }
}

/// The categories `s` of a node's styles with the defaults `d` merged in:
/// each default category that is an object is added (empty) when missing,
/// and its properties fill in what the node's category lacks.
pub open spec fn merge_cats(s: Seq<(Seq<char>, JsonView)>, d: Seq<(Seq<char>, JsonView)>) -> Seq<(Seq<char>, JsonView)>
    decreases d.len(),
{
    if d.len() == 0 {
        s
    } else {
        let prev = merge_cats(s, d.drop_last());
        let cat = d.last().0;
        match d.last().1 {
            JsonView::Object(entry) => {
                let s2 = if member_index(prev, cat, 0) is Some {
                    prev
                } else {
                    prev.push((cat, JsonView::Object(Seq::empty())))
                };
                match member_index(s2, cat, 0) {
                    Some(j) => match s2[j].1 {
                        JsonView::Object(cm) => s2.update(j, (s2[j].0, JsonView::Object(merge_props(cm, entry)))),
                        _ => s2,
                    },
                    None => s2,
                }
            },
            _ => prev,
        }
    }
}

/// A node's value with the defaults merged into its `styles` object.
pub open spec fn merge_value(v: JsonView, d: Seq<(Seq<char>, JsonView)>) -> JsonView {
    match v {
        JsonView::Object(m) => match member_index(m, "styles"@, 0) {
            Some(i) => match m[i].1 {
                JsonView::Object(st) => JsonView::Object(m.update(i, (m[i].0, JsonView::Object(merge_cats(st, d))))),
                _ => v,
            },
            None => v,
        },
        _ => v,
    }
}

/// A node and its whole subtree with the defaults merged in.
pub open spec fn with_defaults(n: SnapView, d: Seq<(Seq<char>, JsonView)>) -> SnapView
    decreases n,
{
    SnapView { value: merge_value(n.value, d), children: all_with_defaults(n.children, d) }
}

pub open spec fn all_with_defaults(s: Seq<SnapView>, d: Seq<(Seq<char>, JsonView)>) -> Seq<SnapView>
    decreases s,
{
    if s.len() == 0 {
        Seq::empty()
    } else {
        all_with_defaults(s.drop_last(), d).push(with_defaults(s.last(), d))
    }
}

proof fn lemma_member_views_update(s: Seq<(String, Json)>, j: int, x: (String, Json))
    requires
        0 <= j < s.len(),
    ensures
        member_views(s.update(j, x)) == member_views(s).update(j, (x.0@, json_view(x.1))),
{
    lemma_member_views(s);
    lemma_member_views(s.update(j, x));
    assert(member_views(s.update(j, x)) =~= member_views(s).update(j, (x.0@, json_view(x.1))));
}

fn merge_props_exec(cm: &mut Vec<(String, Json)>, entry: &Vec<(String, Json)>)
    ensures
        member_views(final(cm)@) == merge_props(member_views(old(cm)@), member_views(entry@)),
{
    let ghost c0 = member_views(cm@);
    proof {
        lemma_member_views(entry@);
    }
    let mut j: usize = 0;
    assert(member_views(entry@).take(0) =~= Seq::<(Seq<char>, JsonView)>::empty());
    while j < entry.len()
        invariant
            j <= entry.len(),
            member_views(entry@).len() == entry@.len(),
            forall|q: int| 0 <= q < entry@.len() ==> #[trigger] member_views(entry@)[q] == (entry@[q].0@, json_view(entry@[q].1)),
            member_views(cm@) == merge_props(c0, member_views(entry@).take(j as int)),
        decreases entry.len() - j,
    {
        let ghost t = member_views(entry@).take(j + 1);
        assert(t.drop_last() =~= member_views(entry@).take(j as int));
        assert(t.last() == (entry@[j as int].0@, json_view(entry@[j as int].1)));
        if find_member(cm, entry[j].0.as_str()).is_none() {
            let name = entry[j].0.clone();
            let val = clone_json(&entry[j].1);
            let ghost before = cm@;
            cm.push((name, val));
            assert(cm@.drop_last() =~= before);
        }
        j = j + 1;
    }
    assert(member_views(entry@).take(entry.len() as int) =~= member_views(entry@));
}

fn merge_cats_exec(s: &mut Vec<(String, Json)>, d: &Vec<(String, Json)>)
    ensures
        member_views(final(s)@) == merge_cats(member_views(old(s)@), member_views(d@)),
{
    let ghost s0 = member_views(s@);
    proof {
        lemma_member_views(d@);
    }
    let mut k: usize = 0;
    assert(member_views(d@).take(0) =~= Seq::<(Seq<char>, JsonView)>::empty());
    while k < d.len()
        invariant
            k <= d.len(),
            member_views(d@).len() == d@.len(),
            forall|q: int| 0 <= q < d@.len() ==> #[trigger] member_views(d@)[q] == (d@[q].0@, json_view(d@[q].1)),
            member_views(s@) == merge_cats(s0, member_views(d@).take(k as int)),
        decreases d.len() - k,
    {
        let ghost t = member_views(d@).take(k + 1);
        assert(t.drop_last() =~= member_views(d@).take(k as int));
        assert(t.last() == (d@[k as int].0@, json_view(d@[k as int].1)));
        let ghost sp = s@;
        let ghost catv = d@[k as int].0@;
        match &d[k].1 {
            Json::Object(entry) => {
                let cat = d[k].0.as_str();
                assert(json_view(d@[k as int].1) == JsonView::Object(member_views(entry@)));
                if find_member(s, cat).is_none() {
                    let ghost before = s@;
                    let empty: Vec<(String, Json)> = Vec::new();
                    assert(member_views(empty@) =~= Seq::<(Seq<char>, JsonView)>::empty());
                    let nm = d[k].0.clone();
                    s.push((nm, Json::Object(empty)));
                    assert(s@.drop_last() =~= before);
                    assert(s@.last() == (nm, Json::Object(empty)));
                    assert(json_view(Json::Object(empty)) == JsonView::Object(Seq::empty()));
                    assert(member_views(s@) == member_views(before).push((catv, JsonView::Object(Seq::empty()))));
                }
                let ghost s2 = s@;
                assert(member_views(s2) == (if member_index(member_views(sp), catv, 0) is Some {
                    member_views(sp)
                } else {
                    member_views(sp).push((catv, JsonView::Object(Seq::empty())))
                }));
                proof {
                    lemma_member_views(s2);
                }
                match find_member(s, cat) {
                    Some(j) => {
                        let (name, val) = s.remove(j);
                        assert(name == s2[j as int].0 && val == s2[j as int].1);
                        match val {
                            Json::Object(cm) => {
                                let mut cm = cm;
                                let ghost cmv = member_views(cm@);
                                assert(member_views(s2)[j as int].1 == JsonView::Object(cmv));
                                merge_props_exec(&mut cm, entry);
                                let ghost x = (name, Json::Object(cm));
                                s.insert(j, (name, Json::Object(cm)));
                                assert(s@ =~= s2.update(j as int, x));
                                proof {
                                    lemma_member_views_update(s2, j as int, x);
                                }
                            },
                            other => {
                                let ghost x = (name, other);
                                s.insert(j, (name, other));
                                assert(s@ =~= s2.update(j as int, x));
                                assert(s2.update(j as int, x) =~= s2);
                            },
                        }
                    },
                    None => {},
                }
            },
            _ => {},
        }
        k = k + 1;
    }
    assert(member_views(d@).take(d.len() as int) =~= member_views(d@));
}

fn merge_value_exec(v: Json, d: &Vec<(String, Json)>) -> (r: Json)
    ensures
        json_view(r) == merge_value(json_view(v), member_views(d@)),
{
    match v {
        Json::Object(m) => {
            let ghost m0 = m@;
            proof {
                lemma_member_views(m0);
            }
            match find_member(&m, "styles") {
                Some(i) => {
                    let mut m = m;
                    let (name, val) = m.remove(i);
                    assert(name == m0[i as int].0 && val == m0[i as int].1);
                    match val {
                        Json::Object(st) => {
                            let mut st = st;
                            merge_cats_exec(&mut st, d);
                            let ghost x = (name, Json::Object(st));
                            m.insert(i, (name, Json::Object(st)));
                            assert(m@ =~= m0.update(i as int, x));
                            proof {
                                lemma_member_views_update(m0, i as int, x);
                            }
                        },
                        other => {
                            let ghost x = (name, other);
                            m.insert(i, (name, other));
                            assert(m@ =~= m0.update(i as int, x));
                            assert(m0.update(i as int, x) =~= m0);
                        },
                    }
                    Json::Object(m)
                },
                None => Json::Object(m),
            }
        },
        other => other,
    }
}

fn with_defaults_exec(n: SnapNode, d: &Vec<(String, Json)>) -> (r: SnapNode)
    ensures
        snap_view(r) == with_defaults(snap_view(n), member_views(d@)),
    decreases n,
{
    let SnapNode { value, children } = n;
    let value = merge_value_exec(value, d);
    let ghost c0 = children@;
    proof {
        lemma_snap_views(c0);
    }
    let mut rest = children;
    let mut out: Vec<SnapNode> = Vec::new();
    let mut k: usize = 0;
    let len = rest.len();
    assert(c0.skip(0) =~= c0);
    assert(snap_views(c0).take(0) =~= Seq::<SnapView>::empty());
    while k < len
        invariant
            k <= len,
            len == c0.len(),
            c0 == n.children@,
            rest@ == c0.skip(k as int),
            snap_views(c0).len() == c0.len(),
            forall|q: int| 0 <= q < c0.len() ==> #[trigger] snap_views(c0)[q] == snap_view(c0[q]),
            snap_views(out@) == all_with_defaults(snap_views(c0).take(k as int), member_views(d@)),
        decreases len - k,
    {
        let c = rest.remove(0);
        assert(c == c0[k as int]);
        assert(rest@ =~= c0.skip(k + 1));
        proof {
            assert(decreases_to!(n => n.children));
            assert(decreases_to!(n.children => n.children@));
            assert(decreases_to!(n.children@ => n.children@[k as int]));
        }
        let node = with_defaults_exec(c, d);
        let ghost before = out@;
        out.push(node);
        assert(out@.drop_last() =~= before);
        assert(snap_views(c0).take(k + 1).drop_last() =~= snap_views(c0).take(k as int));
        k = k + 1;
    }
    assert(snap_views(c0).take(len as int) =~= snap_views(c0));
    SnapNode { value, children: out }
}

// ---------------------------------------------------------------------------
// Reading the lines
// ---------------------------------------------------------------------------

/// What has been read of a snapshot so far.
pub struct LoadState {
    /// `Some(true)` once a tree line was read, `Some(false)` for flat.
    pub mode: Option<bool>,
    /// The latest `__meta.style_defaults`.
    pub defaults: Seq<(Seq<char>, JsonView)>,
    pub roots: Seq<SnapView>,
    pub flat: Seq<SnapView>,
    /// `(id, parent_id)` of each flat line.
    pub links: Seq<(u64, Option<u64>)>,
}

pub open spec fn initial_state() -> LoadState {
    LoadState { mode: None, defaults: Seq::empty(), roots: Seq::empty(), flat: Seq::empty(), links: Seq::empty() }
}

/// A flat line's `id` (0 when it has none).
pub open spec fn line_id(v: JsonView) -> u64 {
    match as_u64(jget(v, "id"@)) {
        Some(n) => n,
        None => 0,
    }
}

/// Reading one line: a `__meta` line replaces the defaults (when it has a
/// `style_defaults` object); `__ax_tree` and `__actions` lines are passed
/// over; any other line is a node, in tree layout when it has `children`.
/// `None`: the line's layout differs from the lines read before.
pub open spec fn load_step(st: LoadState, v: JsonView) -> Option<LoadState> {
    match jget(v, "__meta"@) {
        Some(meta) => Some(
            match jget(meta, "style_defaults"@) {
                Some(JsonView::Object(d)) => LoadState {
                    mode: st.mode,
                    defaults: d,
                    roots: st.roots,
                    flat: st.flat,
                    links: st.links,
                },
                _ => st,
            },
        ),
        None => if jget(v, "__ax_tree"@) is Some || jget(v, "__actions"@) is Some {
            Some(st)
        } else {
            let tree = jget(v, "children"@) is Some;
            if st.mode == Some(!tree) {
                None
            } else if tree {
                Some(LoadState {
                    mode: Some(true),
                    defaults: st.defaults,
                    roots: st.roots.push(node_of(v)),
                    flat: st.flat,
                    links: st.links,
                })
            } else {
                Some(LoadState {
                    mode: Some(false),
                    defaults: st.defaults,
                    roots: st.roots,
                    flat: st.flat.push(node_of(v)),
                    links: st.links.push((line_id(v), as_u64(jget(v, "parent_id"@)))),
                })
            }
        },
    }
}

/// Reading the lines in order; `None` on mixed layouts.
pub open spec fn load_fold(lines: Seq<JsonView>) -> Option<LoadState>
    decreases lines.len(),
{
    if lines.len() == 0 {
        Some(initial_state())
    } else {
        match load_fold(lines.drop_last()) {
            Some(st) => load_step(st, lines.last()),
            None => None,
        }
    }
}

/// The snapshot read: the roots (the forest of the flat lines in flat
/// layout), with the defaults merged into every node.
pub open spec fn finish_spec(st: LoadState) -> Seq<SnapView> {
    let forest = if st.mode == Some(false) {
        forest_spec(st.flat, st.links)
    } else {
        st.roots
    };
    all_with_defaults(forest, st.defaults)
}

/// The snapshot the parsed lines read as; `None` when they mix layouts.
pub open spec fn load_spec(lines: Seq<JsonView>) -> Option<Seq<SnapView>> {
    match load_fold(lines) {
        Some(st) => Some(finish_spec(st)),
        None => None,
    }
}

/// The lines of a snapshot text that count: each line trimmed, empty ones
/// left out.
pub open spec fn kept_lines(ls: Seq<Seq<char>>) -> Seq<Seq<char>>
    decreases ls.len(),
{
    if ls.len() == 0 {
        Seq::empty()
    } else {
        let t = crate::text::trim(ls.last());
        if t.len() == 0 {
            kept_lines(ls.drop_last())
        } else {
            kept_lines(ls.drop_last()).push(t)
        }
    }
}

/// Where reading a snapshot text ends.
pub enum TextOutcome {
    /// A line is not one JSON value.
    Unparsable,
    /// A line's layout differs from the lines before it.
    Mixed,
    Read(LoadState),
}

/// Reading the kept lines in order, each parsed as it comes.
pub open spec fn text_fold(ls: Seq<Seq<char>>) -> TextOutcome
    decreases ls.len(),
{
    if ls.len() == 0 {
        TextOutcome::Read(initial_state())
    } else {
        match text_fold(ls.drop_last()) {
            TextOutcome::Read(st) => match json_line_of(ls.last()) {
                None => TextOutcome::Unparsable,
                Some(v) => match load_step(st, v) {
                    Some(st2) => TextOutcome::Read(st2),
                    None => TextOutcome::Mixed,
                },
            },
            other => other,
        }
    }
}

/// The lines of `content` as `str::lines` cuts them and the loader keeps
/// them.
pub open spec fn snapshot_lines(content: Seq<char>) -> Seq<Seq<char>> {
    kept_lines(crate::text::split(content, '\n'))
}

struct Loader {
    mode: Option<bool>,
    defaults: Vec<(String, Json)>,
    roots: Vec<SnapNode>,
    flat: Vec<SnapNode>,
    links: Vec<(u64, Option<u64>)>,
}

spec fn loader_view(l: Loader) -> LoadState {
    LoadState {
        mode: l.mode,
        defaults: member_views(l.defaults@),
        roots: snap_views(l.roots@),
        flat: snap_views(l.flat@),
        links: l.links@,
    }
}

pub(crate) fn as_u64_exec(v: Option<&Json>) -> (r: Option<u64>)
    ensures
        r == as_u64(match v {
            Some(x) => Some(json_view(*x)),
            None => None,
        }),
{
    match v {
        Some(Json::Number(t)) => match parse_u64(&crate::text::chars_of(t.as_str())) {
            Some(n) => Some(n),
            None => None,
        },
        _ => None,
    }
}

fn new_loader() -> (l: Loader)
    ensures
        l.flat.len() == l.links.len(),
        loader_view(l) == initial_state(),
{
    let l = Loader { mode: None, defaults: Vec::new(), roots: Vec::new(), flat: Vec::new(), links: Vec::new() };
    assert(member_views(l.defaults@) =~= Seq::<(Seq<char>, JsonView)>::empty());
    assert(snap_views(l.roots@) =~= Seq::<SnapView>::empty());
    assert(snap_views(l.flat@) =~= Seq::<SnapView>::empty());
    assert(l.links@ =~= Seq::<(u64, Option<u64>)>::empty());
    l
}

/// Reads one parsed line; `false` when its layout differs from before.
fn loader_step(l: &mut Loader, v: Json) -> (ok: bool)
    requires
        old(l).flat.len() == old(l).links.len(),
    ensures
        final(l).flat.len() == final(l).links.len(),
        ok == (load_step(loader_view(*old(l)), json_view(v)) is Some),
        ok ==> load_step(loader_view(*old(l)), json_view(v)) == Some(loader_view(*final(l))),
{
    let meta = match get(&v, "__meta") {
        Some(m) => Some(match get(m, "style_defaults") {
            Some(d) => Some(clone_json(d)),
            None => None,
        }),
        None => None,
    };
    match meta {
        Some(d) => {
            match d {
                Some(Json::Object(members)) => {
                    l.defaults = members;
                },
                _ => {},
            }
            return true;
        },
        None => {},
    }
    if get(&v, "__ax_tree").is_some() || get(&v, "__actions").is_some() {
        return true;
    }
    let tree = get(&v, "children").is_some();
    match l.mode {
        Some(m) => {
            if m != tree {
                return false;
            }
        },
        None => {},
    }
    l.mode = Some(tree);
    if tree {
        let node = node_from(v);
        let ghost before = l.roots@;
        l.roots.push(node);
        assert(l.roots@.drop_last() =~= before);
    } else {
        let id = match as_u64_exec(get(&v, "id")) {
            Some(n) => n,
            None => 0,
        };
        let parent = as_u64_exec(get(&v, "parent_id"));
        let node = node_from(v);
        let ghost before = l.flat@;
        l.flat.push(node);
        assert(l.flat@.drop_last() =~= before);
        l.links.push((id, parent));
    }
    true
}

/// The finished snapshot of what a loader read.
fn loader_finish(l: Loader) -> (r: Vec<SnapNode>)
    requires
        l.flat.len() == l.links.len(),
    ensures
        snap_views(r@) == finish_spec(loader_view(l)),
{
    let Loader { mode, defaults, roots, flat, links } = l;
    let forest = if mode == Some(false) {
        let shape = forest_links(&links);
        proof {
            lemma_indices_in_range(links@, shape.roots@, 0, links@.len() as int);
        }
        build_list_exec(&flat, &links, &shape.children, &shape.roots, links.len())
    } else {
        roots
    };
    let ghost f0 = forest@;
    proof {
        lemma_snap_views(f0);
    }
    let mut rest = forest;
    let mut out: Vec<SnapNode> = Vec::new();
    let mut k: usize = 0;
    let len = rest.len();
    assert(f0.skip(0) =~= f0);
    assert(snap_views(f0).take(0) =~= Seq::<SnapView>::empty());
    while k < len
        invariant
            k <= len,
            len == f0.len(),
            rest@ == f0.skip(k as int),
            snap_views(f0).len() == f0.len(),
            forall|q: int| 0 <= q < f0.len() ==> #[trigger] snap_views(f0)[q] == snap_view(f0[q]),
            snap_views(out@) == all_with_defaults(snap_views(f0).take(k as int), member_views(defaults@)),
        decreases len - k,
    {
        let c = rest.remove(0);
        assert(c == f0[k as int]);
        assert(rest@ =~= f0.skip(k + 1));
        let node = with_defaults_exec(c, &defaults);
        let ghost before = out@;
        out.push(node);
        assert(out@.drop_last() =~= before);
        assert(snap_views(f0).take(k + 1).drop_last() =~= snap_views(f0).take(k as int));
        k = k + 1;
    }
    assert(snap_views(f0).take(len as int) =~= snap_views(f0));
    out
}

/// Loads a snapshot from its parsed JSON lines.
pub fn load_lines(lines: Vec<Json>) -> (r: Result<Vec<SnapNode>, DiffError>)
    ensures
        match r {
            Ok(nodes) => load_spec(json_views(lines@)) == Some(snap_views(nodes@)),
            Err(e) => e is MixedLayout && load_spec(json_views(lines@)) is None,
        },
{
    let ghost s = lines@;
    proof {
        lemma_json_views(s);
    }
    let mut rest = lines;
    let mut l = new_loader();
    let n = rest.len();
    let mut k: usize = 0;
    assert(s.skip(0) =~= s);
    assert(json_views(s).take(0) =~= Seq::<JsonView>::empty());
    while k < n
        invariant
            k <= n,
            n == s.len(),
            rest@ == s.skip(k as int),
            json_views(s).len() == s.len(),
            forall|q: int| 0 <= q < s.len() ==> #[trigger] json_views(s)[q] == json_view(s[q]),
            load_fold(json_views(s).take(k as int)) == Some(loader_view(l)),
            l.flat.len() == l.links.len(),
            s == lines@,
        decreases n - k,
    {
        let v = rest.remove(0);
        assert(v == s[k as int]);
        assert(rest@ =~= s.skip(k + 1));
        assert(json_views(s).take(k + 1).drop_last() =~= json_views(s).take(k as int));
        let ghost lv = loader_view(l);
        let ghost vv = json_view(v);
        assert(vv == json_views(s)[k as int]);
        let ok = loader_step(&mut l, v);
        if !ok {
            proof {
                assert(load_step(lv, vv) is None);
                assert(load_fold(json_views(s).take(k + 1)) is None);
                assert(json_views(s).take(k + 1).last() == json_views(s)[k as int]);
                lemma_fold_stays_none(json_views(s), k as int + 1);
                assert(load_spec(json_views(s)) is None);
                assert(s == lines@);
            }
            return Err(DiffError::MixedLayout);
        }
        k = k + 1;
    }
    assert(json_views(s).take(n as int) =~= json_views(s));
    Ok(loader_finish(l))
}

proof fn lemma_fold_stays_none(s: Seq<JsonView>, k: int)
    requires
        0 <= k <= s.len(),
        load_fold(s.take(k)) is None,
    ensures
        load_fold(s) is None,
    decreases s.len() - k,
{
    if k < s.len() {
        assert(s.take(k + 1).drop_last() =~= s.take(k));
        lemma_fold_stays_none(s, k + 1);
    } else {
        assert(s.take(k) =~= s);
    }
}

proof fn lemma_text_fold_stays(ls: Seq<Seq<char>>, k: int)
    requires
        0 <= k <= ls.len(),
        !(text_fold(kept_lines(ls.take(k))) is Read),
    ensures
        text_fold(kept_lines(ls)) == text_fold(kept_lines(ls.take(k))),
    decreases ls.len() - k,
{
    if k < ls.len() {
        assert(ls.take(k + 1).drop_last() =~= ls.take(k));
        let t = crate::text::trim(ls.take(k + 1).last());
        if t.len() > 0 {
            assert(kept_lines(ls.take(k + 1)).drop_last() =~= kept_lines(ls.take(k)));
        }
        lemma_text_fold_stays(ls, k + 1);
    } else {
        assert(ls.take(k) =~= ls);
    }
}

/// Loads a snapshot from its JSONL text: each line is trimmed, empty
/// lines are left out, and each line is parsed as it comes.
pub fn load_str(content: &str) -> (r: Result<Vec<SnapNode>, DiffError>)
    ensures
        match r {
            Ok(nodes) => text_fold(snapshot_lines(content@)) matches TextOutcome::Read(st) && snap_views(nodes@)
                == finish_spec(st),
            Err(DiffError::Json(_)) => text_fold(snapshot_lines(content@)) is Unparsable,
            Err(DiffError::MixedLayout) => text_fold(snapshot_lines(content@)) is Mixed,
            Err(DiffError::Io(_)) => false,
        },
{
    let parts = crate::text::split_char(&crate::text::chars_of(content), '\n');
    let ghost ls = parts.deep_view();
    let mut l = new_loader();
    let mut i: usize = 0;
    assert(ls.take(0) =~= Seq::<Seq<char>>::empty());
    while i < parts.len()
        invariant
            i <= parts.len(),
            ls == parts.deep_view(),
            ls == crate::text::split(content@, '\n'),
            text_fold(kept_lines(ls.take(i as int))) == TextOutcome::Read(loader_view(l)),
            l.flat.len() == l.links.len(),
        decreases parts.len() - i,
    {
        assert(ls.take(i + 1).drop_last() =~= ls.take(i as int));
        assert(ls[i as int] == parts@[i as int].deep_view());
        proof {
            crate::text::lemma_deep_view_chars(parts@[i as int]);
        }
        let t = crate::text::trim_vec(&parts[i]);
        if t.len() > 0 {
            assert(kept_lines(ls.take(i + 1)).drop_last() =~= kept_lines(ls.take(i as int)));
            let line = crate::text::string_of(t);
            match crate::json::parse_json_line(line.as_str()) {
                Err(e) => {
                    proof {
                        lemma_text_fold_stays(ls, i as int + 1);
                    }
                    return Err(DiffError::Json(e));
                },
                Ok(v) => {
                    let ghost lv = loader_view(l);
                    let ghost vv = json_view(v);
                    let ok = loader_step(&mut l, v);
                    if !ok {
                        proof {
                            assert(load_step(lv, vv) is None);
                            lemma_text_fold_stays(ls, i as int + 1);
                        }
                        return Err(DiffError::MixedLayout);
                    }
                },
            }
        }
        i = i + 1;
    }
    assert(ls.take(parts.len() as int) =~= ls);
    Ok(loader_finish(l))
}


// ---------------------------------------------------------------------------
// The `__actions` reports
// ---------------------------------------------------------------------------

/// The `__actions` reports (the UI effects of scripted interactions) of
/// the lines that parse, in line order; a line that does not parse is
/// passed over.
pub open spec fn actions_in(lines: Seq<Seq<char>>) -> Seq<JsonView>
    decreases lines.len(),
{
    if lines.len() == 0 {
        Seq::empty()
    } else {
        let prev = actions_in(lines.drop_last());
        match json_line_of(lines.last()) {
            Some(v) => match jget(v, "__actions"@) {
                Some(JsonView::Array(a)) => prev + a,
                _ => prev,
            },
            None => prev,
        }
    }
}

/// A parsed snapshot: the node forest and the `__actions` reports it
/// carried.
#[derive(Debug)]
pub struct DiffDocument {
    pub nodes: Vec<SnapNode>,
    pub actions: Vec<Json>,
}

proof fn lemma_push_json(s: Seq<Json>, x: Json)
    ensures
        json_views(s.push(x)) == json_views(s).push(json_view(x)),
{
    assert(s.push(x).drop_last() =~= s);
}

fn extract_actions(content: &str) -> (r: Vec<Json>)
    ensures
        json_views(r@) == actions_in(snapshot_lines(content@)),
{
    let parts = crate::text::split_char(&crate::text::chars_of(content), '\n');
    let ghost ls = parts.deep_view();
    let mut out: Vec<Json> = Vec::new();
    let mut i: usize = 0;
    assert(ls.take(0) =~= Seq::<Seq<char>>::empty());
    assert(json_views(out@) =~= Seq::<JsonView>::empty());
    while i < parts.len()
        invariant
            i <= parts.len(),
            ls == parts.deep_view(),
            ls == crate::text::split(content@, '\n'),
            json_views(out@) == actions_in(kept_lines(ls.take(i as int))),
        decreases parts.len() - i,
    {
        assert(ls.take(i + 1).drop_last() =~= ls.take(i as int));
        assert(ls[i as int] == parts@[i as int].deep_view());
        proof {
            crate::text::lemma_deep_view_chars(parts@[i as int]);
        }
        let t = crate::text::trim_vec(&parts[i]);
        if t.len() > 0 {
            assert(kept_lines(ls.take(i + 1)).drop_last() =~= kept_lines(ls.take(i as int)));
            let line = crate::text::string_of(t);
            match crate::json::parse_json_line(line.as_str()) {
                Ok(v) => {
                    match get(&v, "__actions") {
                        Some(Json::Array(items)) => {
                            proof {
                                lemma_json_views(items@);
                            }
                            let ghost start = json_views(out@);
                            let mut k: usize = 0;
                            while k < items.len()
                                invariant
                                    k <= items.len(),
                                    json_views(items@).len() == items@.len(),
                                    forall|q: int| 0 <= q < items@.len() ==> #[trigger] json_views(items@)[q] == json_view(items@[q]),
                                    json_views(out@) == start + json_views(items@).take(k as int),
                                decreases items.len() - k,
                            {
                                let c = clone_json(&items[k]);
                                let ghost pre = out@;
                                out.push(c);
                                proof {
                                    lemma_push_json(pre, c);
                                    assert(json_views(items@).take(k + 1) =~= json_views(items@).take(k as int).push(json_view(items@[k as int])));
                                    assert(json_views(out@) =~= start + json_views(items@).take(k + 1));
                                }
                                k = k + 1;
                            }
                            assert(json_views(items@).take(items.len() as int) =~= json_views(items@));
                        },
                        _ => {},
                    }
                },
                Err(_) => {},
            }
        }
        i = i + 1;
    }
    assert(ls.take(parts.len() as int) =~= ls);
    out
}

/// Loads a snapshot from its JSONL text (as `load_str`) together with the
/// `__actions` reports it carries.
pub fn load_str_doc(content: &str) -> (r: Result<DiffDocument, DiffError>)
    ensures
        match r {
            Ok(d) => text_fold(snapshot_lines(content@)) matches TextOutcome::Read(st) && snap_views(d.nodes@)
                == finish_spec(st) && json_views(d.actions@) == actions_in(snapshot_lines(content@)),
            Err(DiffError::Json(_)) => text_fold(snapshot_lines(content@)) is Unparsable,
            Err(DiffError::MixedLayout) => text_fold(snapshot_lines(content@)) is Mixed,
            Err(DiffError::Io(_)) => false,
        },
{
    match load_str(content) {
        Ok(nodes) => Ok(DiffDocument { nodes, actions: extract_actions(content) }),
        Err(e) => Err(e),
    }
}

} // verus!
