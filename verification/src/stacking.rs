//! Paint-order decisions over a flattened snapshot forest.
//!
//! The occlusion rules walk the captured forest in pre-order. Each entry
//! carries its pre-order index, the last pre-order index of its subtree,
//! its tag, whether the element opens a stacking context, and its numeric
//! `z-index` (`None` for `auto`/unset). From these plain values the rules
//! decide ancestry, SVG grouping, the effective `z-index` and which of two
//! overlapping elements paints above the other.
use crate::text::{chars_of, eq_str};
use vstd::prelude::*;

verus! {

/// One element of the flattened forest.
#[derive(Debug, Clone)]
pub struct FlatNode {
    /// Pre-order index (document order).
    pub index: usize,
    /// Last pre-order index inside this element's subtree.
    pub end: usize,
    /// Tag name as captured (empty when unknown).
    pub tag: String,
    /// Whether the element creates a stacking context.
    pub stacking: bool,
    /// Numeric `z-index`, `None` for `auto`/unset.
    pub z_index: Option<i64>,
}

/// `a`'s pre-order index lies inside `b`'s subtree range.
pub open spec fn within(a: FlatNode, b: FlatNode) -> bool {
    b.index <= a.index && a.index <= b.end
}

/// One of the two elements is an ancestor of (or the same as) the other.
pub open spec fn related_spec(a: FlatNode, b: FlatNode) -> bool {
    within(b, a) || within(a, b)
}

/// `a` is an ancestor of `b` or vice versa (subtree interval containment).
pub fn related(flat: &Vec<FlatNode>, a: usize, b: usize) -> (r: bool)
    requires
        a < flat.len(),
        b < flat.len(),
    ensures
        r == related_spec(flat@[a as int], flat@[b as int]),
{
    let (ai, ae) = (flat[a].index, flat[a].end);
    let (bi, be) = (flat[b].index, flat[b].end);
    (ai <= bi && bi <= ae) || (bi <= ai && ai <= be)
}

/// Tags of the SVG shapes and groups that render in document order inside
/// one `<svg>`.
pub open spec fn is_svg_shape(t: Seq<char>) -> bool {
    ||| t == "circle"@
    ||| t == "ellipse"@
    ||| t == "line"@
    ||| t == "path"@
    ||| t == "polygon"@
    ||| t == "polyline"@
    ||| t == "rect"@
    ||| t == "text"@
    ||| t == "use"@
    ||| t == "g"@
}

/// Whether the tag names an SVG shape or group.
pub fn svg_shape_tag(tag: &str) -> (r: bool)
    ensures
        r == is_svg_shape(tag@),
{
    let t = chars_of(tag);
    eq_str(&t, "circle") || eq_str(&t, "ellipse") || eq_str(&t, "line") || eq_str(&t, "path")
        || eq_str(&t, "polygon") || eq_str(&t, "polyline") || eq_str(&t, "rect")
        || eq_str(&t, "text") || eq_str(&t, "use") || eq_str(&t, "g")
}

/// The nearest position before `p` whose tag is `svg`, if any.
pub open spec fn svg_before(flat: Seq<FlatNode>, p: int) -> Option<int>
    decreases p,
{
    if p <= 0 {
        None
    } else if flat[p - 1].tag@ == "svg"@ {
        Some(p - 1)
    } else {
        svg_before(flat, p - 1)
    }
}

/// Both elements are SVG shapes and the nearest `<svg>` before `a` in
/// document order holds `b` in its subtree.
pub open spec fn same_svg_spec(flat: Seq<FlatNode>, a: int, b: int) -> bool {
    &&& is_svg_shape(flat[a].tag@)
    &&& is_svg_shape(flat[b].tag@)
    &&& match svg_before(flat, a) {
        Some(p) => within(flat[b], flat[p]),
        None => false,
    }
}

/// Both nodes are SVG elements inside the same `<svg>` container. SVG
/// renders in document order within one SVG, so overlapping shapes there
/// are intentional, not occlusion.
pub fn same_svg_container(flat: &Vec<FlatNode>, a: usize, b: usize) -> (r: bool)
    requires
        a < flat.len(),
        b < flat.len(),
    ensures
        r == same_svg_spec(flat@, a as int, b as int),
{
    if !svg_shape_tag(flat[a].tag.as_str()) || !svg_shape_tag(flat[b].tag.as_str()) {
        return false;
    }
    let mut pos = a;
    while pos > 0
        invariant
            pos <= a < flat.len(),
            b < flat.len(),
            svg_before(flat@, a as int) == svg_before(flat@, pos as int),
            is_svg_shape(flat@[a as int].tag@),
            is_svg_shape(flat@[b as int].tag@),
        decreases pos,
    {
        pos = pos - 1;
        let t = chars_of(flat[pos].tag.as_str());
        if eq_str(&t, "svg") {
            assert(svg_before(flat@, pos + 1) == Some(pos as int));
            let anc = &flat[pos];
            return anc.index <= flat[b].index && flat[b].index <= anc.end;
        }
    }
    false
}

/// The nearest position `j < p` (scanning down from `p - 1`) that holds
/// `flat[i]` in its subtree and opens a stacking context, stopping at the
/// first position whose index lies past `flat[i]`'s.
pub open spec fn stacking_ancestor(flat: Seq<FlatNode>, i: int, p: int) -> Option<int>
    decreases p,
{
    if p <= 0 {
        None
    } else {
        let j = p - 1;
        if within(flat[i], flat[j]) {
            if flat[j].stacking {
                Some(j)
            } else {
                stacking_ancestor(flat, i, j)
            }
        } else if flat[j].index > flat[i].index {
            None
        } else {
            stacking_ancestor(flat, i, j)
        }
    }
}

/// The effective `z-index` of `flat[i]`: its own when it opens a stacking
/// context, else that of the nearest enclosing element that does, else
/// `None`.
pub open spec fn effective_z_spec(flat: Seq<FlatNode>, i: int) -> Option<i64> {
    if flat[i].stacking {
        flat[i].z_index
    } else {
        match stacking_ancestor(flat, i, i) {
            Some(j) => flat[j].z_index,
            None => None,
        }
    }
}

/// Find the effective z-index of a node by climbing ancestors until
/// reaching a stacking-context boundary.
pub fn effective_z_index(flat: &Vec<FlatNode>, i: usize) -> (r: Option<i64>)
    requires
        i < flat.len(),
    ensures
        r == effective_z_spec(flat@, i as int),
{
    if flat[i].stacking {
        return flat[i].z_index;
    }
    let idx = flat[i].index;
    let mut p = i;
    while p > 0
        invariant
            p <= i < flat.len(),
            idx == flat@[i as int].index,
            !flat@[i as int].stacking,
            stacking_ancestor(flat@, i as int, i as int) == stacking_ancestor(flat@, i as int, p as int),
        decreases p,
    {
        let j = p - 1;
        if flat[j].index <= idx && idx <= flat[j].end {
            if flat[j].stacking {
                return flat[j].z_index;
            }
        } else if flat[j].index > idx {
            return None;
        }
        p = j;
    }
    None
}

/// Whether `a` paints above `b`: a larger effective `z-index` wins, a set
/// one beats an unset one, and otherwise the later element in document
/// order paints above.
pub open spec fn paints_above_spec(flat: Seq<FlatNode>, a: int, b: int) -> bool {
    let za = effective_z_spec(flat, a);
    let zb = effective_z_spec(flat, b);
    match (za, zb) {
        (Some(va), Some(vb)) => if va != vb { va > vb } else { flat[a].index > flat[b].index },
        (Some(_), None) => true,
        (None, Some(_)) => false,
        (None, None) => flat[a].index > flat[b].index,
    }
}

/// Whether `a` paints above `b` (deterministic stacking heuristic).
pub fn paints_above(flat: &Vec<FlatNode>, a: usize, b: usize) -> (r: bool)
    requires
        a < flat.len(),
        b < flat.len(),
    ensures
        r == paints_above_spec(flat@, a as int, b as int),
{
    let za = effective_z_index(flat, a);
    let zb = effective_z_index(flat, b);
    match (za, zb) {
        (Some(va), Some(vb)) => {
            if va != vb {
                va > vb
            } else {
                flat[a].index > flat[b].index
            }
        },
        (Some(_), None) => true,
        (None, Some(_)) => false,
        (None, None) => flat[a].index > flat[b].index,
    }
}

/// Ancestry is symmetric: `a` and `b` are related exactly when `b` and `a`
/// are.
pub proof fn lemma_related_symmetric(a: FlatNode, b: FlatNode)
    ensures
        related_spec(a, b) == related_spec(b, a),
{
}

/// Paint order between two elements at different document positions is
/// decided one way: exactly one of them paints above the other.
pub proof fn lemma_paint_order_total(flat: Seq<FlatNode>, a: int, b: int)
    requires
        0 <= a < flat.len(),
        0 <= b < flat.len(),
        flat[a].index != flat[b].index,
    ensures
        paints_above_spec(flat, a, b) != paints_above_spec(flat, b, a),
{
}

/// Paint order is transitive among elements at distinct document
/// positions.
pub proof fn lemma_paint_order_transitive(flat: Seq<FlatNode>, a: int, b: int, c: int)
    requires
        0 <= a < flat.len(),
        0 <= b < flat.len(),
        0 <= c < flat.len(),
        paints_above_spec(flat, a, b),
        paints_above_spec(flat, b, c),
    ensures
        paints_above_spec(flat, a, c),
{
}


/// Position `k` ends the climb from `flat[i]`: it does not hold `flat[i]`
/// and lies after it in document order.
pub open spec fn past_ancestors(flat: Seq<FlatNode>, i: int, k: int) -> bool {
    !within(flat[i], flat[k]) && flat[k].index > flat[i].index
}

proof fn lemma_stacking_ancestor(flat: Seq<FlatNode>, i: int, p: int)
    requires
        0 <= p <= i < flat.len(),
    ensures
        match stacking_ancestor(flat, i, p) {
            Some(j) => {
                &&& 0 <= j < p
                &&& within(flat[i], flat[j])
                &&& flat[j].stacking
                &&& forall|k: int|
                    j < k < p ==> !(within(flat[i], #[trigger] flat[k]) && flat[k].stacking) && !past_ancestors(
                        flat,
                        i,
                        k,
                    )
            },
            None => forall|j: int|
                0 <= j < p && within(flat[i], #[trigger] flat[j]) && flat[j].stacking ==> exists|k: int|
                    j < k < p && past_ancestors(flat, i, k),
        },
    decreases p,
{
    if p > 0 {
        let j = p - 1;
        lemma_stacking_ancestor(flat, i, j);
        if within(flat[i], flat[j]) {
            if !flat[j].stacking {
                match stacking_ancestor(flat, i, j) {
                    Some(a) => {},
                    None => {
                        assert forall|q: int|
                            0 <= q < p && within(flat[i], #[trigger] flat[q]) && flat[q].stacking implies exists|k: int|
                            q < k < p && past_ancestors(flat, i, k) by {
                            let k = choose|k: int| q < k < j && past_ancestors(flat, i, k);
                        }
                    },
                }
            }
        } else if flat[j].index > flat[i].index {
            assert forall|q: int|
                0 <= q < p && within(flat[i], #[trigger] flat[q]) && flat[q].stacking implies exists|k: int|
                q < k < p && past_ancestors(flat, i, k) by {
                assert(past_ancestors(flat, i, j));
            }
        } else {
            match stacking_ancestor(flat, i, j) {
                Some(a) => {},
                None => {
                    assert forall|q: int|
                        0 <= q < p && within(flat[i], #[trigger] flat[q]) && flat[q].stacking implies exists|k: int|
                        q < k < p && past_ancestors(flat, i, k) by {
                        let k = choose|k: int| q < k < j && past_ancestors(flat, i, k);
                    }
                },
            }
        }
    }
}

/// The effective `z-index` of an element: its own when it opens a
/// stacking context; otherwise that of the nearest enclosing element
/// before it that does (no element between them encloses it and opens a
/// stacking context, and the climb did not leave its ancestors), or none
/// when every enclosing stacking element lies beyond the end of the climb.
pub proof fn lemma_effective_z(flat: Seq<FlatNode>, i: int)
    requires
        0 <= i < flat.len(),
    ensures
        flat[i].stacking ==> effective_z_spec(flat, i) == flat[i].z_index,
        !flat[i].stacking ==> ((exists|j: int|
            0 <= j < i && within(flat[i], flat[j]) && flat[j].stacking && effective_z_spec(flat, i)
                == flat[j].z_index && forall|k: int|
                j < k < i ==> !(within(flat[i], #[trigger] flat[k]) && flat[k].stacking) && !past_ancestors(flat, i, k))
            || (effective_z_spec(flat, i) is None && forall|j: int|
            0 <= j < i && within(flat[i], #[trigger] flat[j]) && flat[j].stacking ==> exists|k: int|
                j < k < i && past_ancestors(flat, i, k))),
{
    lemma_stacking_ancestor(flat, i, i);
}

} // verus!
