//! The uniformity check's bookkeeping over sibling instances: which
//! properties they are compared on (every property some instance has a
//! value for, in text order), which instances lack one, and the grouping
//! of deviations per instance selector. The group norm itself (median of
//! numbers, mode of other values) and the numeric tolerance are
//! floating-point or hash-order judgements made by the caller.
use crate::action::strings_model;
use crate::facts::{flag, member};
use crate::json::{as_text, get, jget, json_view, lemma_member_views, member_views, Json, JsonView};
use crate::load::{snap_view, SnapNode};
use crate::store::{lemma_text_lt_strict, lemma_text_lt_total, lemma_text_lt_transitive, text_lt, text_lt_exec};
use crate::text::{chars_of, opt_view, seq_eq, string_of};
use vstd::prelude::*;

verus! {

/// One sibling instance: its selector and its flattened `(path, value)`
/// properties.
pub struct Instance {
    pub selector: String,
    pub props: Vec<(String, Option<String>)>,
}

pub struct InstanceView {
    pub selector: Seq<char>,
    pub props: Seq<(Seq<char>, Option<Seq<char>>)>,
}

pub open spec fn props_view(p: Seq<(String, Option<String>)>) -> Seq<(Seq<char>, Option<Seq<char>>)> {
    p.map_values(|e: (String, Option<String>)| (e.0@, opt_view(e.1)))
}

pub open spec fn instance_view(i: Instance) -> InstanceView {
    InstanceView { selector: i.selector@, props: props_view(i.props@) }
}

pub open spec fn instances_view(s: Seq<Instance>) -> Seq<InstanceView> {
    s.map_values(|i: Instance| instance_view(i))
}

/// The value an instance has for `k`: that of its first property named `k`.
pub open spec fn value_for(props: Seq<(Seq<char>, Option<Seq<char>>)>, k: Seq<char>) -> Option<Seq<char>>
    decreases props.len(),
{
    if props.len() == 0 {
        None
    } else if props[0].0 == k {
        props[0].1
    } else {
        value_for(props.drop_first(), k)
    }
}

/// Each instance's value for `k`, in instance order.
pub open spec fn values_for(insts: Seq<InstanceView>, k: Seq<char>) -> Seq<Option<Seq<char>>> {
    insts.map_values(|i: InstanceView| value_for(i.props, k))
}

/// Whether some instance has a value for `k`.
pub open spec fn has_value(insts: Seq<InstanceView>, k: Seq<char>) -> bool {
    exists|i: int| 0 <= i < insts.len() && (#[trigger] value_for(insts[i].props, k)) is Some
}

/// The first value present, in instance order.
pub open spec fn first_present(vals: Seq<Option<Seq<char>>>) -> Seq<char>
    decreases vals.len(),
{
    if vals.len() == 0 {
        Seq::empty()
    } else if vals[0] is Some {
        vals[0]->0
    } else {
        first_present(vals.drop_first())
    }
}

/// The positions among the first `k` that have no value, ascending.
pub open spec fn missing_indices(vals: Seq<Option<Seq<char>>>, k: int) -> Seq<int>
    decreases k,
{
    if k <= 0 {
        Seq::empty()
    } else if vals[k - 1] is None {
        missing_indices(vals, k - 1).push(k - 1)
    } else {
        missing_indices(vals, k - 1)
    }
}

/// How a property is checked across the instances.
pub enum KeyCheck {
    /// Some instances lack it: each of `missing` deviates from `norm`, the
    /// first value present.
    Missing { norm: String, missing: Vec<usize> },
    /// Every instance has it: the values, in instance order, go to the
    /// group norm.
    Compare { values: Vec<String> },
}

pub enum CheckView {
    Missing(Seq<char>, Seq<int>),
    Compare(Seq<Seq<char>>),
}

pub open spec fn check_view(c: KeyCheck) -> CheckView {
    match c {
        KeyCheck::Missing { norm, missing } => CheckView::Missing(
            norm@,
            missing@.map_values(|i: usize| i as int),
        ),
        KeyCheck::Compare { values } => CheckView::Compare(strings_model(values@)),
    }
}

/// The check of a property with these values.
pub open spec fn check_for(vals: Seq<Option<Seq<char>>>) -> CheckView {
    if forall|i: int| 0 <= i < vals.len() ==> (#[trigger] vals[i]) is Some {
        CheckView::Compare(unwrap_all(vals))
    } else {
        CheckView::Missing(first_present(vals), missing_indices(vals, vals.len() as int))
    }
}

/// Strictly increasing in text order (so without repeats).
pub open spec fn strictly_sorted(ks: Seq<Seq<char>>) -> bool {
    forall|i: int, j: int| 0 <= i < j < ks.len() ==> text_lt(#[trigger] ks[i], #[trigger] ks[j])
}

pub open spec fn opt_views(s: Seq<Option<String>>) -> Seq<Option<Seq<char>>> {
    s.map_values(|v: Option<String>| opt_view(v))
}

pub open spec fn unwrap_all(s: Seq<Option<Seq<char>>>) -> Seq<Seq<char>> {
    s.map_values(|v: Option<Seq<char>>| v->0)
}

pub open spec fn plan_keys(r: Seq<(String, KeyCheck)>) -> Seq<Seq<char>> {
    r.map_values(|e: (String, KeyCheck)| e.0@)
}

// ---------------------------------------------------------------------------
// Executable parts
// ---------------------------------------------------------------------------

proof fn lemma_value_for_key(props: Seq<(Seq<char>, Option<Seq<char>>)>, k: Seq<char>)
    requires
        value_for(props, k) is Some,
    ensures
        exists|j: int| 0 <= j < props.len() && props[j].0 == k,
    decreases props.len(),
{
    if props[0].0 != k {
        lemma_value_for_key(props.drop_first(), k);
        let j = choose|j: int| 0 <= j < props.drop_first().len() && props.drop_first()[j].0 == k;
        assert(props[j + 1].0 == k);
    }
}

/// The value of the first property named `k`.
fn value_of(props: &Vec<(String, Option<String>)>, k: &Vec<char>) -> (r: Option<String>)
    ensures
        opt_view(r) == value_for(props_view(props@), k@),
{
    let ghost pv = props_view(props@);
    let mut i: usize = 0;
    assert(pv.skip(0) =~= pv);
    while i < props.len()
        invariant
            i <= props.len(),
            pv == props_view(props@),
            pv.len() == props@.len(),
            value_for(pv, k@) == value_for(pv.skip(i as int), k@),
        decreases props.len() - i,
    {
        assert(pv.skip(i as int)[0] == pv[i as int]);
        assert(pv.skip(i as int).drop_first() =~= pv.skip(i + 1));
        if seq_eq(&chars_of(props[i].0.as_str()), k) {
            return props[i].1.clone();
        }
        i = i + 1;
    }
    assert(pv.skip(i as int).len() == 0);
    None
}

/// Insert `x` into the strictly sorted `keys` unless it is there.
fn insert_key(keys: &mut Vec<String>, x: &String)
    requires
        strictly_sorted(strings_model(old(keys)@)),
    ensures
        strictly_sorted(strings_model(final(keys)@)),
        strings_model(final(keys)@).contains(x@),
        forall|y: Seq<char>| strings_model(old(keys)@).contains(y) ==> strings_model(final(keys)@).contains(y),
{
    let ghost km = strings_model(keys@);
    let xc = chars_of(x.as_str());
    let mut p: usize = 0;
    while p < keys.len() && text_lt_exec(&chars_of(keys[p].as_str()), &xc)
        invariant
            p <= keys.len(),
            km == strings_model(keys@),
            xc@ == x@,
            forall|j: int| 0 <= j < p ==> text_lt(#[trigger] km[j], x@),
        decreases keys.len() - p,
    {
        assert(km[p as int] == keys@[p as int]@);
        p = p + 1;
    }
    if p < keys.len() && seq_eq(&chars_of(keys[p].as_str()), &xc) {
        assert(km[p as int] == x@);
        return;
    }
    proof {
        if p < keys.len() {
            assert(km[p as int] == keys@[p as int]@);
            lemma_text_lt_total(km[p as int], x@);
        }
    }
    keys.insert(p, x.clone());
    let ghost n = strings_model(keys@);
    assert(n =~= km.insert(p as int, x@));
    assert forall|i: int, j: int| 0 <= i < j < n.len() implies text_lt(#[trigger] n[i], #[trigger] n[j]) by {
        if j < p {
            assert(n[i] == km[i] && n[j] == km[j]);
        } else if j == p {
            assert(n[i] == km[i]);
        } else if i == p {
            assert(n[j] == km[j - 1]);
            if j - 1 > p {
                lemma_text_lt_transitive(x@, km[p as int], km[j - 1]);
            }
        } else if i < p {
            assert(n[i] == km[i] && n[j] == km[j - 1]);
        } else {
            assert(n[i] == km[i - 1] && n[j] == km[j - 1]);
        }
    }
    assert(n[p as int] == x@);
    assert forall|y: Seq<char>| km.contains(y) implies n.contains(y) by {
        let j = choose|j: int| 0 <= j < km.len() && km[j] == y;
        if j < p {
            assert(n[j] == y);
        } else {
            assert(n[j + 1] == y);
        }
    }
}

/// Every property name of the instances, once each, in text order.
fn all_keys(insts: &Vec<Instance>) -> (r: Vec<String>)
    ensures
        strictly_sorted(strings_model(r@)),
        forall|i: int, j: int|
            0 <= i < insts@.len() && 0 <= j < instances_view(insts@)[i].props.len() ==> strings_model(
                r@,
            ).contains(#[trigger] instances_view(insts@)[i].props[j].0),
{
    let ghost iv = instances_view(insts@);
    let mut keys: Vec<String> = Vec::new();
    assert(strings_model(keys@) =~= Seq::<Seq<char>>::empty());
    let mut ii: usize = 0;
    while ii < insts.len()
        invariant
            ii <= insts.len(),
            iv == instances_view(insts@),
            iv.len() == insts@.len(),
            strictly_sorted(strings_model(keys@)),
            forall|i: int, j: int|
                0 <= i < ii && 0 <= j < iv[i].props.len() ==> strings_model(keys@).contains(
                    #[trigger] iv[i].props[j].0,
                ),
        decreases insts.len() - ii,
    {
        let props = &insts[ii].props;
        assert(iv[ii as int] == instance_view(insts@[ii as int]));
        let mut jj: usize = 0;
        while jj < props.len()
            invariant
                ii < insts.len(),
                jj <= props.len(),
                props == &insts@[ii as int].props,
                iv == instances_view(insts@),
                iv.len() == insts@.len(),
                iv[ii as int].props == props_view(props@),
                strictly_sorted(strings_model(keys@)),
                forall|i: int, j: int|
                    0 <= i < ii && 0 <= j < iv[i].props.len() ==> strings_model(keys@).contains(
                        #[trigger] iv[i].props[j].0,
                    ),
                forall|j: int| 0 <= j < jj ==> strings_model(keys@).contains(#[trigger] iv[ii as int].props[j].0),
            decreases props.len() - jj,
        {
            let ghost before = strings_model(keys@);
            insert_key(&mut keys, &props[jj].0);
            assert(iv[ii as int].props[jj as int].0 == props@[jj as int].0@);
            assert forall|i: int, j: int|
                0 <= i < ii && 0 <= j < iv[i].props.len() implies strings_model(keys@).contains(
                    #[trigger] iv[i].props[j].0,
                ) by {
                assert(before.contains(iv[i].props[j].0));
            }
            assert forall|j: int| 0 <= j < jj + 1 implies strings_model(keys@).contains(
                #[trigger] iv[ii as int].props[j].0,
            ) by {
                if j < jj {
                    assert(before.contains(iv[ii as int].props[j].0));
                }
            }
            jj = jj + 1;
        }
        ii = ii + 1;
    }
    keys
}

/// Each instance's value for `k`.
fn values_of(insts: &Vec<Instance>, k: &Vec<char>) -> (r: Vec<Option<String>>)
    ensures
        opt_views(r@) == values_for(instances_view(insts@), k@),
{
    let ghost iv = instances_view(insts@);
    let mut out: Vec<Option<String>> = Vec::new();
    let mut i: usize = 0;
    while i < insts.len()
        invariant
            i <= insts.len(),
            iv == instances_view(insts@),
            iv.len() == insts@.len(),
            opt_views(out@) =~= values_for(iv, k@).take(i as int),
        decreases insts.len() - i,
    {
        let v = value_of(&insts[i].props, k);
        assert(iv[i as int] == instance_view(insts@[i as int]));
        assert(values_for(iv, k@)[i as int] == opt_view(v));
        let ghost pre = out@;
        out.push(v);
        assert(opt_views(out@) =~= opt_views(pre).push(opt_view(v)));
        assert(values_for(iv, k@).take(i + 1) =~= values_for(iv, k@).take(i as int).push(opt_view(v)));
        i = i + 1;
    }
    assert(values_for(iv, k@).take(insts.len() as int) =~= values_for(iv, k@));
    out
}

/// The check of a property with these values; none when no instance has
/// a value.
fn check_of(vals: &Vec<Option<String>>) -> (r: Option<KeyCheck>)
    ensures
        r is None <==> forall|i: int| 0 <= i < vals@.len() ==> (#[trigger] opt_views(vals@)[i]) is None,
        r is Some ==> check_view(r->0) == check_for(opt_views(vals@)),
{
    let ghost vv = opt_views(vals@);
    let mut first: Option<String> = None;
    let mut missing: Vec<usize> = Vec::new();
    let mut all: Vec<String> = Vec::new();
    let mut i: usize = 0;
    assert(vv.skip(0) =~= vv);
    while i < vals.len()
        invariant
            i <= vals.len(),
            vv == opt_views(vals@),
            vv.len() == vals@.len(),
            missing@.map_values(|j: usize| j as int) =~= missing_indices(vv, i as int),
            first is None <==> forall|j: int| 0 <= j < i ==> (#[trigger] vv[j]) is None,
            first is Some ==> first_present(vv) == first->0@,
            first is None ==> first_present(vv) == first_present(vv.skip(i as int)),
            missing@.len() == 0 ==> strings_model(all@) =~= unwrap_all(vv.take(i as int)),
            missing@.len() == 0 <==> forall|j: int| 0 <= j < i ==> (#[trigger] vv[j]) is Some,
        decreases vals.len() - i,
    {
        assert(vv[i as int] == opt_view(vals@[i as int]));
        proof {
            if first is None {
                assert(vv.skip(i as int)[0] == vv[i as int]);
                assert(vv.skip(i as int).drop_first() =~= vv.skip(i + 1));
            }
        }
        let ghost all0 = all@;
        let ghost miss0 = missing@;
        match &vals[i] {
            Some(v) => {
                if first.is_none() {
                    first = Some(v.clone());
                }
                all.push(v.clone());
                proof {
                    if miss0.len() == 0 {
                        assert(strings_model(all@) =~= strings_model(all0).push(v@));
                        assert(unwrap_all(vv.take(i + 1)) =~= unwrap_all(vv.take(i as int)).push(v@));
                    }
                }
            },
            None => {
                missing.push(i);
            },
        }
        assert(missing@.map_values(|j: usize| j as int) =~= missing_indices(vv, i + 1));
        i = i + 1;
    }
    assert(vv.take(vals.len() as int) =~= vv);
    match first {
        None => None,
        Some(norm) => {
            if missing.len() == 0 {
                Some(KeyCheck::Compare { values: all })
            } else {
                Some(KeyCheck::Missing { norm, missing })
            }
        },
    }
}

/// The properties the instances are compared on, in text order, each
/// with how it is checked: every property some instance has a value for;
/// none at all with fewer than two instances.
pub fn uniformity_plan(insts: &Vec<Instance>) -> (r: Vec<(String, KeyCheck)>)
    ensures
        insts@.len() < 2 ==> r@.len() == 0,
        insts@.len() >= 2 ==> strictly_sorted(plan_keys(r@)),
        insts@.len() >= 2 ==> forall|k: Seq<char>|
            plan_keys(r@).contains(k) <==> has_value(instances_view(insts@), k),
        forall|e: int|
            0 <= e < r@.len() ==> check_view(#[trigger] r@[e].1) == check_for(
                values_for(instances_view(insts@), r@[e].0@),
            ),
{
    let mut out: Vec<(String, KeyCheck)> = Vec::new();
    if insts.len() < 2 {
        return out;
    }
    let ghost iv = instances_view(insts@);
    let keys = all_keys(insts);
    let ghost km = strings_model(keys@);
    let mut q: usize = 0;
    while q < keys.len()
        invariant
            q <= keys.len(),
            iv == instances_view(insts@),
            km == strings_model(keys@),
            strictly_sorted(km),
            forall|e: int| 0 <= e < out@.len() ==> exists|j: int| 0 <= j < q && km[j] == #[trigger] plan_keys(out@)[e],
            strictly_sorted(plan_keys(out@)),
            forall|j: int| 0 <= j < q && has_value(iv, #[trigger] km[j]) ==> plan_keys(out@).contains(km[j]),
            forall|e: int| 0 <= e < out@.len() ==> has_value(iv, #[trigger] plan_keys(out@)[e]),
            forall|e: int|
                0 <= e < out@.len() ==> check_view(#[trigger] out@[e].1) == check_for(values_for(iv, out@[e].0@)),
        decreases keys.len() - q,
    {
        let kc = chars_of(keys[q].as_str());
        assert(km[q as int] == kc@);
        let vals = values_of(insts, &kc);
        let ghost vv = values_for(iv, kc@);
        let ghost before = out@;
        let ghost pb = plan_keys(before);
        match check_of(&vals) {
            Some(c) => {
                proof {
                    let i = choose|i: int| 0 <= i < vv.len() && !((#[trigger] vv[i]) is None);
                    assert(vv[i] == value_for(iv[i].props, kc@));
                    assert(has_value(iv, kc@));
                }
                out.push((keys[q].clone(), c));
                let ghost pk = plan_keys(out@);
                assert(pk =~= pb.push(kc@));
                assert forall|a: int, b: int| 0 <= a < b < pk.len() implies text_lt(#[trigger] pk[a], #[trigger] pk[b]) by {
                    if b == pk.len() - 1 {
                        assert(pk[a] == pb[a]);
                        let j = choose|j: int| 0 <= j < q && km[j] == #[trigger] pb[a];
                        assert(text_lt(km[j], km[q as int]));
                    } else {
                        assert(pk[a] == pb[a] && pk[b] == pb[b]);
                    }
                }
                assert forall|e: int| 0 <= e < out@.len() implies exists|j: int|
                    0 <= j < q + 1 && km[j] == #[trigger] plan_keys(out@)[e] by {
                    if e < before.len() {
                        assert(pk[e] == pb[e]);
                        let j = choose|j: int| 0 <= j < q && km[j] == #[trigger] pb[e];
                        assert(km[j] == pk[e]);
                    } else {
                        assert(km[q as int] == pk[e]);
                    }
                }
                assert forall|j: int| 0 <= j < q + 1 && has_value(iv, #[trigger] km[j]) implies pk.contains(km[j]) by {
                    if j < q {
                        assert(pb.contains(km[j]));
                        let e = choose|e: int| 0 <= e < pb.len() && pb[e] == km[j];
                        assert(pk[e] == km[j]);
                    } else {
                        assert(pk[pk.len() - 1] == km[j]);
                    }
                }
                assert forall|e: int| 0 <= e < out@.len() implies has_value(iv, #[trigger] plan_keys(out@)[e]) by {
                    if e < before.len() {
                        assert(pk[e] == pb[e]);
                    }
                }
                assert forall|e: int| 0 <= e < out@.len() implies check_view(#[trigger] out@[e].1) == check_for(
                    values_for(iv, out@[e].0@),
                ) by {
                    if e < before.len() {
                        assert(out@[e] == before[e]);
                    }
                }
            },
            None => {
                assert(!has_value(iv, kc@)) by {
                    if has_value(iv, kc@) {
                        let i = choose|i: int| 0 <= i < iv.len() && (#[trigger] value_for(iv[i].props, kc@)) is Some;
                        assert(vv[i] == value_for(iv[i].props, kc@));
                    }
                }
            },
        }
        q = q + 1;
    }
    assert forall|k: Seq<char>| plan_keys(out@).contains(k) <==> has_value(iv, k) by {
        if plan_keys(out@).contains(k) {
            let e = choose|e: int| 0 <= e < plan_keys(out@).len() && plan_keys(out@)[e] == k;
            assert(has_value(iv, plan_keys(out@)[e]));
        }
        if has_value(iv, k) {
            let i = choose|i: int| 0 <= i < iv.len() && (#[trigger] value_for(iv[i].props, k)) is Some;
            lemma_value_for_key(iv[i].props, k);
            let j = choose|j: int| 0 <= j < iv[i].props.len() && iv[i].props[j].0 == k;
            assert(km.contains(iv[i].props[j].0));
            let t = choose|t: int| 0 <= t < km.len() && km[t] == k;
            assert(has_value(iv, km[t]));
        }
    }
    out
}

// ---------------------------------------------------------------------------
// Grouping deviations per instance
// ---------------------------------------------------------------------------

pub open spec fn group_selectors<T>(g: Seq<(String, Vec<T>)>) -> Seq<Seq<char>> {
    g.map_values(|e: (String, Vec<T>)| e.0@)
}

/// What adding deviation `d` of instance `sel` to the groups `o` gives:
/// it joins the first group with that selector, or opens a new group at
/// the end.
pub open spec fn pushed<T>(o: Seq<(String, Vec<T>)>, n: Seq<(String, Vec<T>)>, sel: Seq<char>, d: T) -> bool {
    match group_selectors(o).index_of_first(sel) {
        Some(i) => {
            &&& n.len() == o.len()
            &&& group_selectors(n) == group_selectors(o)
            &&& n[i].1@ == o[i].1@.push(d)
            &&& forall|j: int| 0 <= j < o.len() && j != i ==> #[trigger] n[j].1@ == o[j].1@
        },
        None => {
            &&& n.len() == o.len() + 1
            &&& group_selectors(n) == group_selectors(o).push(sel)
            &&& n[o.len() as int].1@ == seq![d]
            &&& forall|j: int| 0 <= j < o.len() ==> #[trigger] n[j].1@ == o[j].1@
        },
    }
}

/// Add deviation `d` of the instance `selector`: to the group of the first
/// outlier with that selector, or as a new outlier at the end.
pub fn push_deviation<T>(groups: &mut Vec<(String, Vec<T>)>, selector: &String, d: T)
    ensures
        pushed(old(groups)@, final(groups)@, selector@, d),
{
    let ghost o = groups@;
    let ghost gs = group_selectors(o);
    let sc = chars_of(selector.as_str());
    let mut found: Option<usize> = None;
    let mut i: usize = 0;
    while i < groups.len()
        invariant
            i <= groups.len(),
            groups@ == o,
            gs == group_selectors(o),
            sc@ == selector@,
            found is None ==> forall|j: int| 0 <= j < i ==> gs[j] != selector@,
            found is Some ==> found->0 < groups.len() && gs[found->0 as int] == selector@ && forall|j: int|
                0 <= j < found->0 ==> gs[j] != selector@,
        decreases groups.len() - i,
    {
        if found.is_none() {
            if seq_eq(&chars_of(groups[i].0.as_str()), &sc) {
                assert(gs[i as int] == selector@);
                found = Some(i);
            } else {
                assert(gs[i as int] != selector@);
            }
        }
        i = i + 1;
    }
    proof {
        gs.index_of_first_ensures(selector@);
    }
    match found {
        Some(i) => {
            proof {
                assert(gs.contains(selector@));
                let idx = gs.index_of_first(selector@)->0;
                if idx < i {
                    assert(gs[idx] != selector@);
                }
                if idx > i {
                    assert(gs[i as int] != selector@);
                }
                assert(gs.index_of_first(selector@) == Some(i as int));
            }
            let mut entry = groups.remove(i);
            let ghost e0 = entry;
            assert(e0 == o[i as int]);
            entry.1.push(d);
            let ghost e1 = entry;
            groups.insert(i, entry);
            assert(groups@ =~= o.update(i as int, e1));
            assert(group_selectors(groups@) =~= gs);
            assert forall|j: int| 0 <= j < o.len() && j != i implies #[trigger] groups@[j].1@ == o[j].1@ by {
                assert(groups@[j] == o[j]);
            }
        },
        None => {
            let mut v: Vec<T> = Vec::new();
            v.push(d);
            groups.push((selector.clone(), v));
            assert(group_selectors(groups@) =~= gs.push(selector@));
            assert(groups@[o.len() as int].1@ =~= seq![d]);
        },
    }
}


// ---------------------------------------------------------------------------
// An instance's properties
// ---------------------------------------------------------------------------

/// `Option<String>`'s order: none first, then by text.
pub open spec fn opt_le(x: Option<Seq<char>>, y: Option<Seq<char>>) -> bool {
    match (x, y) {
        (None, _) => true,
        (Some(_), None) => false,
        (Some(p), Some(q)) => !text_lt(q, p),
    }
}

/// `(String, Option<String>)`'s order: by path, then by value.
pub open spec fn prop_le(a: (Seq<char>, Option<Seq<char>>), b: (Seq<char>, Option<Seq<char>>)) -> bool {
    text_lt(a.0, b.0) || (a.0 == b.0 && opt_le(a.1, b.1))
}

pub open spec fn props_sorted(s: Seq<(Seq<char>, Option<Seq<char>>)>) -> bool {
    forall|i: int, j: int| 0 <= i < j < s.len() ==> prop_le(#[trigger] s[i], #[trigger] s[j])
}

proof fn lemma_prop_le_total(a: (Seq<char>, Option<Seq<char>>), b: (Seq<char>, Option<Seq<char>>))
    ensures
        prop_le(a, b) || prop_le(b, a),
{
    lemma_text_lt_total(a.0, b.0);
    if let (Some(p), Some(q)) = (a.1, b.1) {
        lemma_text_lt_strict(p, q);
    }
}

proof fn lemma_prop_le_transitive(
    a: (Seq<char>, Option<Seq<char>>),
    b: (Seq<char>, Option<Seq<char>>),
    c: (Seq<char>, Option<Seq<char>>),
)
    requires
        prop_le(a, b),
        prop_le(b, c),
    ensures
        prop_le(a, c),
{
    if text_lt(a.0, b.0) && text_lt(b.0, c.0) {
        lemma_text_lt_transitive(a.0, b.0, c.0);
    }
    if let (Some(p), Some(q), Some(r)) = (a.1, b.1, c.1) {
        if a.0 == b.0 && b.0 == c.0 && text_lt(r, p) {
            lemma_text_lt_strict(a.0, a.0);
            lemma_text_lt_total(q, r);
            lemma_text_lt_total(p, q);
            if q != r && p != q {
                lemma_text_lt_transitive(p, q, r);
                lemma_text_lt_strict(p, r);
            }
        }
    }
}

fn entry_le(a: &(String, Option<String>), b: &(String, Option<String>)) -> (r: bool)
    ensures
        r == prop_le((a.0@, opt_view(a.1)), (b.0@, opt_view(b.1))),
{
    let ac = chars_of(a.0.as_str());
    let bc = chars_of(b.0.as_str());
    if text_lt_exec(&ac, &bc) {
        true
    } else if seq_eq(&ac, &bc) {
        match (&a.1, &b.1) {
            (None, _) => true,
            (Some(_), None) => false,
            (Some(x), Some(y)) => !text_lt_exec(&chars_of(y.as_str()), &chars_of(x.as_str())),
        }
    } else {
        false
    }
}

pub open spec fn prop_views(s: Seq<(String, Option<String>)>) -> Seq<(Seq<char>, Option<Seq<char>>)> {
    s.map_values(|e: (String, Option<String>)| (e.0@, opt_view(e.1)))
}

/// `category.property` with its value when it is a text, for each
/// property of each category that is an object.
pub open spec fn category_props(cat: Seq<char>, props: Seq<(Seq<char>, JsonView)>) -> Seq<(Seq<char>, Option<Seq<char>>)>
    decreases props.len(),
{
    if props.len() == 0 {
        Seq::empty()
    } else {
        category_props(cat, props.drop_last()).push(
            (cat + seq!['.'] + props.last().0, as_text(Some(props.last().1))),
        )
    }
}

pub open spec fn style_props(cats: Seq<(Seq<char>, JsonView)>) -> Seq<(Seq<char>, Option<Seq<char>>)>
    decreases cats.len(),
{
    if cats.len() == 0 {
        Seq::empty()
    } else {
        let p = style_props(cats.drop_last());
        match cats.last().1 {
            JsonView::Object(m) => p + category_props(cats.last().0, m),
            _ => p,
        }
    }
}

/// The properties compared across instances that the node's JSON gives:
/// its style values by `category.property`, then its noticeability
/// (`display_visible` as `true`/`false`, and the accessibility grade).
pub open spec fn node_props(v: JsonView) -> Seq<(Seq<char>, Option<Seq<char>>)> {
    let styles = match jget(v, "styles"@) {
        Some(JsonView::Object(m)) => style_props(m),
        _ => Seq::empty(),
    };
    let noticeable = jget(v, "is_user_noticeable"@);
    let visible = match flag(member(noticeable, "display_visible"@)) {
        Some(b) => seq![
            ("is_user_noticeable.display_visible"@, Some(if b {
                "true"@
            } else {
                "false"@
            })),
        ],
        None => Seq::empty(),
    };
    let grade = match as_text(member(noticeable, "accessibility_grade"@)) {
        Some(g) => seq![("is_user_noticeable.accessibility_grade"@, Some(g))],
        None => Seq::empty(),
    };
    styles + visible + grade
}

fn insert_sorted(out: &mut Vec<(String, Option<String>)>, x: (String, Option<String>))
    requires
        props_sorted(prop_views(old(out)@)),
    ensures
        props_sorted(prop_views(final(out)@)),
        prop_views(final(out)@).to_multiset() == prop_views(old(out)@).to_multiset().insert((x.0@, opt_view(x.1))),
{
    let ghost s = prop_views(out@);
    let ghost xv = (x.0@, opt_view(x.1));
    let mut p: usize = 0;
    while p < out.len() && entry_le(&out[p], &x)
        invariant
            p <= out.len(),
            s == prop_views(out@),
            xv == (x.0@, opt_view(x.1)),
            forall|j: int| 0 <= j < p ==> prop_le(#[trigger] s[j], xv),
        decreases out.len() - p,
    {
        assert(s[p as int] == (out@[p as int].0@, opt_view(out@[p as int].1)));
        p = p + 1;
    }
    proof {
        if p < out.len() {
            assert(s[p as int] == (out@[p as int].0@, opt_view(out@[p as int].1)));
            lemma_prop_le_total(s[p as int], xv);
        }
    }
    out.insert(p, x);
    let ghost n = prop_views(out@);
    assert(n =~= s.insert(p as int, xv));
    assert forall|i: int, j: int| 0 <= i < j < n.len() implies prop_le(#[trigger] n[i], #[trigger] n[j]) by {
        if j < p {
            assert(n[i] == s[i] && n[j] == s[j]);
        } else if j == p {
            assert(n[i] == s[i]);
        } else if i == p {
            assert(n[j] == s[j - 1]);
            if j - 1 > p {
                lemma_prop_le_transitive(xv, s[p as int], s[j - 1]);
            }
        } else if i < p {
            assert(n[i] == s[i] && n[j] == s[j - 1]);
        } else {
            assert(n[i] == s[i - 1] && n[j] == s[j - 1]);
        }
    }
    proof {
        vstd::seq_lib::to_multiset_insert(s, p as int, xv);
    }
}

fn clone_entry(e: &(String, Option<String>)) -> (r: (String, Option<String>))
    ensures
        r.0@ == e.0@,
        opt_view(r.1) == opt_view(e.1),
{
    let v = match &e.1 {
        Some(t) => Some(t.clone()),
        None => None,
    };
    (e.0.clone(), v)
}

fn text_of_chars(prefix: &String, sep: char, rest: &String) -> (r: String)
    ensures
        r@ == prefix@ + seq![sep] + rest@,
{
    let mut v = chars_of(prefix.as_str());
    v.push(sep);
    let w = chars_of(rest.as_str());
    let mut i: usize = 0;
    let ghost start = v@;
    while i < w.len()
        invariant
            i <= w.len(),
            v@ == start + w@.take(i as int),
        decreases w.len() - i,
    {
        v.push(w[i]);
        assert(w@.take(i + 1) =~= w@.take(i as int).push(w[i as int]));
        i = i + 1;
    }
    assert(w@.take(w.len() as int) =~= w@);
    string_of(v)
}

/// The properties of instance `n` compared across instances, in the
/// order of `(String, Option<String>)`: those its JSON gives (see
/// `node_props`) and `extra`, the ones read from its measured geometry.
pub fn instance_props(n: &SnapNode, extra: Vec<(String, Option<String>)>) -> (r: Vec<(String, Option<String>)>)
    ensures
        props_sorted(prop_views(r@)),
        prop_views(r@).to_multiset() == (node_props(snap_view(*n).value) + prop_views(extra@)).to_multiset(),
{
    let ghost v = snap_view(*n).value;
    let mut all: Vec<(String, Option<String>)> = Vec::new();
    assert(prop_views(all@) =~= Seq::<(Seq<char>, Option<Seq<char>>)>::empty());
    match get(&n.value, "styles") {
        Some(Json::Object(cats)) => {
            proof {
                lemma_member_views(cats@);
            }
            let ghost cv = member_views(cats@);
            let mut i: usize = 0;
            assert(cv.take(0) =~= Seq::<(Seq<char>, JsonView)>::empty());
            while i < cats.len()
                invariant
                    i <= cats.len(),
                    cv == member_views(cats@),
                    cv.len() == cats@.len(),
                    forall|q: int| 0 <= q < cats@.len() ==> #[trigger] cv[q] == (cats@[q].0@, json_view(cats@[q].1)),
                    prop_views(all@) == style_props(cv.take(i as int)),
                decreases cats.len() - i,
            {
                assert(cv.take(i + 1).drop_last() =~= cv.take(i as int));
                assert(cv.take(i + 1).last() == cv[i as int]);
                match &cats[i].1 {
                    Json::Object(props) => {
                        proof {
                            lemma_member_views(props@);
                        }
                        let ghost mv = member_views(props@);
                        let ghost start = prop_views(all@);
                        let mut j: usize = 0;
                        assert(mv.take(0) =~= Seq::<(Seq<char>, JsonView)>::empty());
                        assert(start + category_props(cats@[i as int].0@, mv.take(0)) =~= start);
                        while j < props.len()
                            invariant
                                j <= props.len(),
                                i < cats.len(),
                                mv == member_views(props@),
                                mv.len() == props@.len(),
                                forall|q: int| 0 <= q < props@.len() ==> #[trigger] mv[q] == (props@[q].0@, json_view(props@[q].1)),
                                prop_views(all@) == start + category_props(cats@[i as int].0@, mv.take(j as int)),
                            decreases props.len() - j,
                        {
                            assert(mv.take(j + 1).drop_last() =~= mv.take(j as int));
                            assert(mv.take(j + 1).last() == mv[j as int]);
                            let path = text_of_chars(&cats[i].0, '.', &props[j].0);
                            let value = match &props[j].1 {
                                Json::Str(t) => Some(t.clone()),
                                _ => None,
                            };
                            let e = (path, value);
                            let ghost pre = all@;
                            all.push(e);
                            assert(prop_views(all@) =~= prop_views(pre).push((e.0@, opt_view(e.1))));
                            assert(prop_views(all@) =~= start + category_props(cats@[i as int].0@, mv.take(j + 1)));
                            j = j + 1;
                        }
                        assert(mv.take(props.len() as int) =~= mv);
                    },
                    _ => {},
                }
                i = i + 1;
            }
            assert(cv.take(cats.len() as int) =~= cv);
        },
        _ => {},
    }
    let ghost styles = prop_views(all@);
    let noticeable = get(&n.value, "is_user_noticeable");
    let dv = match noticeable {
        Some(x) => get(x, "display_visible"),
        None => None,
    };
    match dv {
        Some(Json::Bool(b)) => {
            let t = if *b { String::from_str("true") } else { String::from_str("false") };
            let ghost pre = all@;
            all.push((String::from_str("is_user_noticeable.display_visible"), Some(t)));
            assert(prop_views(all@) =~= prop_views(pre).push(prop_views(all@).last()));
        },
        _ => {},
    }
    let ghost with_visible = prop_views(all@);
    let grade = match noticeable {
        Some(x) => get(x, "accessibility_grade"),
        None => None,
    };
    match grade {
        Some(Json::Str(g)) => {
            let ghost pre = all@;
            all.push((String::from_str("is_user_noticeable.accessibility_grade"), Some(g.clone())));
            assert(prop_views(all@) =~= prop_views(pre).push(prop_views(all@).last()));
        },
        _ => {},
    }
    assert(prop_views(all@) =~= node_props(v));
    let mut k: usize = 0;
    let ghost base = prop_views(all@);
    while k < extra.len()
        invariant
            k <= extra.len(),
            prop_views(all@) == base + prop_views(extra@).take(k as int),
        decreases extra.len() - k,
    {
        let e = clone_entry(&extra[k]);
        let ghost pre = all@;
        all.push(e);
        assert(prop_views(extra@)[k as int] == (e.0@, opt_view(e.1)));
        assert(prop_views(all@) =~= prop_views(pre).push((e.0@, opt_view(e.1))));
        assert(prop_views(extra@).take(k + 1) =~= prop_views(extra@).take(k as int).push((e.0@, opt_view(e.1))));
        assert(prop_views(all@) =~= base + prop_views(extra@).take(k + 1));
        k = k + 1;
    }
    assert(prop_views(extra@).take(extra.len() as int) =~= prop_views(extra@));
    let ghost total = prop_views(all@);
    let mut out: Vec<(String, Option<String>)> = Vec::new();
    assert(prop_views(out@) =~= total.take(0));
    let mut q: usize = 0;
    while q < all.len()
        invariant
            q <= all.len(),
            total == prop_views(all@),
            props_sorted(prop_views(out@)),
            prop_views(out@).to_multiset() == total.take(q as int).to_multiset(),
        decreases all.len() - q,
    {
        let e = clone_entry(&all[q]);
        assert(total[q as int] == (e.0@, opt_view(e.1)));
        insert_sorted(&mut out, e);
        assert(total.take(q + 1) =~= total.take(q as int).push(total[q as int]));
        proof {
            vstd::seq_lib::to_multiset_build(total.take(q as int), total[q as int]);
        }
        q = q + 1;
    }
    assert(total.take(all.len() as int) =~= total);
    out
}

} // verus!
