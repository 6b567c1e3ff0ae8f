//! JSON values as the snapshot loader and the diff read them, and the
//! reading of one JSON line.
use crate::text::{chars_of, seq_eq};
use vstd::prelude::*;

verus! {

/// A JSON value. A number keeps the text `serde_json` writes for it;
/// object members keep their order.
#[derive(Debug)]
pub enum Json {
    Null,
    Bool(bool),
    Number(String),
    Str(String),
    Array(Vec<Json>),
    Object(Vec<(String, Json)>),
}

/// A JSON value with its texts as characters.
pub enum JsonView {
    Null,
    Bool(bool),
    Number(Seq<char>),
    Str(Seq<char>),
    Array(Seq<JsonView>),
    Object(Seq<(Seq<char>, JsonView)>),
}

pub open spec fn json_view(j: Json) -> JsonView
    decreases j,
{
    match j {
        Json::Null => JsonView::Null,
        Json::Bool(b) => JsonView::Bool(b),
        Json::Number(t) => JsonView::Number(t@),
        Json::Str(s) => JsonView::Str(s@),
        Json::Array(v) => JsonView::Array(json_views(v@)),
        Json::Object(m) => JsonView::Object(member_views(m@)),
    }
}

pub open spec fn json_views(s: Seq<Json>) -> Seq<JsonView>
    decreases s,
{
    if s.len() == 0 {
        Seq::empty()
    } else {
        json_views(s.drop_last()).push(json_view(s.last()))
    }
}

pub open spec fn member_views(s: Seq<(String, Json)>) -> Seq<(Seq<char>, JsonView)>
    decreases s,
{
    if s.len() == 0 {
        Seq::empty()
    } else {
        member_views(s.drop_last()).push((s.last().0@, json_view(s.last().1)))
    }
}

pub proof fn lemma_json_views(s: Seq<Json>)
    ensures
        json_views(s).len() == s.len(),
        forall|i: int| 0 <= i < s.len() ==> #[trigger] json_views(s)[i] == json_view(s[i]),
    decreases s.len(),
{
    if s.len() > 0 {
        lemma_json_views(s.drop_last());
    }
}

pub proof fn lemma_member_views(s: Seq<(String, Json)>)
    ensures
        member_views(s).len() == s.len(),
        forall|i: int|
            0 <= i < s.len() ==> #[trigger] member_views(s)[i] == (s[i].0@, json_view(s[i].1)),
    decreases s.len(),
{
    if s.len() > 0 {
        lemma_member_views(s.drop_last());
    }
}

// ---------------------------------------------------------------------------
// Size, for recursion over nested values
// ---------------------------------------------------------------------------

pub open spec fn jsize(v: JsonView) -> nat
    decreases v,
{
    match v {
        JsonView::Array(a) => 1 + jsizes(a),
        JsonView::Object(m) => 1 + msizes(m),
        _ => 1,
    }
}

pub open spec fn jsizes(a: Seq<JsonView>) -> nat
    decreases a,
{
    if a.len() == 0 {
        0
    } else {
        jsizes(a.drop_last()) + jsize(a.last()) + 1
    }
}

pub open spec fn msizes(m: Seq<(Seq<char>, JsonView)>) -> nat
    decreases m,
{
    if m.len() == 0 {
        0
    } else {
        msizes(m.drop_last()) + jsize(m.last().1) + 1
    }
}

pub proof fn lemma_jsizes_elem(a: Seq<JsonView>, i: int)
    requires
        0 <= i < a.len(),
    ensures
        jsize(a[i]) < jsizes(a),
    decreases a.len(),
{
    if i < a.len() - 1 {
        lemma_jsizes_elem(a.drop_last(), i);
    }
}

pub proof fn lemma_msizes_elem(m: Seq<(Seq<char>, JsonView)>, i: int)
    requires
        0 <= i < m.len(),
    ensures
        jsize(m[i].1) < msizes(m),
    decreases m.len(),
{
    if i < m.len() - 1 {
        lemma_msizes_elem(m.drop_last(), i);
    }
}

// ---------------------------------------------------------------------------
// Members
// ---------------------------------------------------------------------------

/// The first position at or after `i` of a member named `k`.
pub open spec fn member_index(m: Seq<(Seq<char>, JsonView)>, k: Seq<char>, i: int) -> Option<int>
    decreases m.len() - i,
{
    if i < 0 || i >= m.len() {
        None
    } else if m[i].0 == k {
        Some(i)
    } else {
        member_index(m, k, i + 1)
    }
}

pub proof fn lemma_member_index(m: Seq<(Seq<char>, JsonView)>, k: Seq<char>, i: int)
    requires
        0 <= i,
    ensures
        match member_index(m, k, i) {
            Some(j) => i <= j < m.len() && m[j].0 == k,
            None => forall|j: int| i <= j < m.len() ==> #[trigger] m[j].0 != k,
        },
    decreases m.len() - i,
{
    if i < m.len() && m[i].0 != k {
        lemma_member_index(m, k, i + 1);
    }
}

/// The member `k` of an object (`Value::get`); nothing for other values.
pub open spec fn jget(v: JsonView, k: Seq<char>) -> Option<JsonView> {
    match v {
        JsonView::Object(m) => match member_index(m, k, 0) {
            Some(i) => Some(m[i].1),
            None => None,
        },
        _ => None,
    }
}

/// `Value::as_u64`: a number written as plain digits that fits.
pub open spec fn as_u64(v: Option<JsonView>) -> Option<u64> {
    match v {
        Some(JsonView::Number(t)) => match crate::text::parse_unsigned(t, u64::MAX as nat) {
            Some(n) => Some(n as u64),
            None => None,
        },
        _ => None,
    }
}

/// `Value::as_str`.
pub open spec fn as_text(v: Option<JsonView>) -> Option<Seq<char>> {
    match v {
        Some(JsonView::Str(s)) => Some(s),
        _ => None,
    }
}

/// The position of the member named `k` in `m`.
pub fn find_member(m: &Vec<(String, Json)>, k: &str) -> (r: Option<usize>)
    ensures
        match r {
            Some(i) => i < m.len() && member_index(member_views(m@), k@, 0) == Some(i as int),
            None => member_index(member_views(m@), k@, 0) is None,
        },
{
    proof {
        lemma_member_views(m@);
    }
    let kc = chars_of(k);
    let mut i: usize = 0;
    while i < m.len()
        invariant
            i <= m.len(),
            kc@ == k@,
            member_views(m@).len() == m@.len(),
            forall|q: int| 0 <= q < m@.len() ==> #[trigger] member_views(m@)[q] == (m@[q].0@, json_view(m@[q].1)),
            member_index(member_views(m@), k@, 0) == member_index(member_views(m@), k@, i as int),
        decreases m.len() - i,
    {
        let name = chars_of(m[i].0.as_str());
        if seq_eq(&name, &kc) {
            assert(member_views(m@)[i as int].0 == k@);
            return Some(i);
        }
        assert(member_views(m@)[i as int].0 != k@);
        i = i + 1;
    }
    None
}

/// The member `k` of `j` (`Value::get`).
pub fn get<'a>(j: &'a Json, k: &str) -> (r: Option<&'a Json>)
    ensures
        match r {
            Some(x) => jget(json_view(*j), k@) == Some(json_view(*x)),
            None => jget(json_view(*j), k@) is None,
        },
{
    match j {
        Json::Object(m) => {
            proof {
                lemma_member_views(m@);
            }
            match find_member(m, k) {
                Some(i) => Some(&m[i].1),
                None => None,
            }
        },
        _ => None,
    }
}

/// A deep copy.
pub fn clone_json(j: &Json) -> (r: Json)
    ensures
        json_view(r) == json_view(*j),
    decreases jsize(json_view(*j)),
{
    match j {
        Json::Null => Json::Null,
        Json::Bool(b) => Json::Bool(*b),
        Json::Number(t) => Json::Number(t.clone()),
        Json::Str(s) => Json::Str(s.clone()),
        Json::Array(v) => {
            proof {
                lemma_json_views(v@);
            }
            let mut out: Vec<Json> = Vec::new();
            let mut i: usize = 0;
            while i < v.len()
                invariant
                    i <= v.len(),
                    json_view(*j) == JsonView::Array(json_views(v@)),
                    json_views(v@).len() == v@.len(),
                    forall|q: int| 0 <= q < v@.len() ==> #[trigger] json_views(v@)[q] == json_view(v@[q]),
                    json_views(out@) == json_views(v@).take(i as int),
                decreases v.len() - i,
            {
                proof {
                    lemma_jsizes_elem(json_views(v@), i as int);
                }
                let c = clone_json(&v[i]);
                let ghost before = out@;
                out.push(c);
                assert(out@.drop_last() =~= before);
                assert(json_views(v@).take(i + 1) =~= json_views(v@).take(i as int).push(json_view(v@[i as int])));
                i = i + 1;
            }
            assert(json_views(v@).take(v.len() as int) =~= json_views(v@));
            Json::Array(out)
        },
        Json::Object(m) => {
            proof {
                lemma_member_views(m@);
            }
            let mut out: Vec<(String, Json)> = Vec::new();
            let mut i: usize = 0;
            while i < m.len()
                invariant
                    i <= m.len(),
                    json_view(*j) == JsonView::Object(member_views(m@)),
                    member_views(m@).len() == m@.len(),
                    forall|q: int| 0 <= q < m@.len() ==> #[trigger] member_views(m@)[q] == (m@[q].0@, json_view(m@[q].1)),
                    member_views(out@) == member_views(m@).take(i as int),
                decreases m.len() - i,
            {
                proof {
                    lemma_msizes_elem(member_views(m@), i as int);
                }
                let c = clone_json(&m[i].1);
                let name = m[i].0.clone();
                let ghost before = out@;
                out.push((name, c));
                assert(out@.drop_last() =~= before);
                assert(member_views(m@).take(i + 1) =~= member_views(m@).take(i as int).push(
                    (m@[i as int].0@, json_view(m@[i as int].1)),
                ));
                i = i + 1;
            }
            assert(member_views(m@).take(m.len() as int) =~= member_views(m@));
            Json::Object(out)
        },
    }
}

/// Whether two texts are the same.
fn text_eq(a: &String, b: &String) -> (r: bool)
    ensures
        r == (a@ == b@),
{
    seq_eq(&chars_of(a.as_str()), &chars_of(b.as_str()))
}

/// Whether two JSON values are the same (numbers by their text, object
/// members in order).
pub fn json_eq(a: &Json, b: &Json) -> (r: bool)
    ensures
        r == (json_view(*a) == json_view(*b)),
    decreases jsize(json_view(*a)),
{
    match (a, b) {
        (Json::Null, Json::Null) => true,
        (Json::Bool(x), Json::Bool(y)) => *x == *y,
        (Json::Number(x), Json::Number(y)) => text_eq(x, y),
        (Json::Str(x), Json::Str(y)) => text_eq(x, y),
        (Json::Array(x), Json::Array(y)) => {
            proof {
                lemma_json_views(x@);
                lemma_json_views(y@);
            }
            if x.len() != y.len() {
                return false;
            }
            let mut i: usize = 0;
            while i < x.len()
                invariant
                    i <= x.len(),
                    x.len() == y.len(),
                    json_view(*a) == JsonView::Array(json_views(x@)),
                    json_view(*b) == JsonView::Array(json_views(y@)),
                    json_views(x@).len() == x@.len(),
                    json_views(y@).len() == y@.len(),
                    forall|q: int| 0 <= q < x@.len() ==> #[trigger] json_views(x@)[q] == json_view(x@[q]),
                    forall|q: int| 0 <= q < y@.len() ==> #[trigger] json_views(y@)[q] == json_view(y@[q]),
                    forall|q: int| 0 <= q < i ==> json_views(x@)[q] == json_views(y@)[q],
                decreases x.len() - i,
            {
                proof {
                    lemma_jsizes_elem(json_views(x@), i as int);
                }
                if !json_eq(&x[i], &y[i]) {
                    assert(json_views(x@)[i as int] != json_views(y@)[i as int]);
                    return false;
                }
                i = i + 1;
            }
            assert(json_views(x@) =~= json_views(y@));
            true
        },
        (Json::Object(x), Json::Object(y)) => {
            proof {
                lemma_member_views(x@);
                lemma_member_views(y@);
            }
            if x.len() != y.len() {
                return false;
            }
            let mut i: usize = 0;
            while i < x.len()
                invariant
                    i <= x.len(),
                    x.len() == y.len(),
                    json_view(*a) == JsonView::Object(member_views(x@)),
                    json_view(*b) == JsonView::Object(member_views(y@)),
                    member_views(x@).len() == x@.len(),
                    member_views(y@).len() == y@.len(),
                    forall|q: int| 0 <= q < x@.len() ==> #[trigger] member_views(x@)[q] == (x@[q].0@, json_view(x@[q].1)),
                    forall|q: int| 0 <= q < y@.len() ==> #[trigger] member_views(y@)[q] == (y@[q].0@, json_view(y@[q].1)),
                    forall|q: int| 0 <= q < i ==> member_views(x@)[q] == member_views(y@)[q],
                decreases x.len() - i,
            {
                proof {
                    lemma_msizes_elem(member_views(x@), i as int);
                }
                if !text_eq(&x[i].0, &y[i].0) || !json_eq(&x[i].1, &y[i].1) {
                    assert(member_views(x@)[i as int] != member_views(y@)[i as int]);
                    return false;
                }
                i = i + 1;
            }
            assert(member_views(x@) =~= member_views(y@));
            true
        },
        _ => false,
    }
}

/// Whether two optional JSON values are the same.
pub fn opt_json_eq(a: Option<&Json>, b: Option<&Json>) -> (r: bool)
    ensures
        r == (opt_json_view(a) == opt_json_view(b)),
{
    match (a, b) {
        (None, None) => true,
        (Some(x), Some(y)) => json_eq(x, y),
        _ => false,
    }
}

/// An optional JSON value by its view.
pub open spec fn opt_json_view(a: Option<&Json>) -> Option<JsonView> {
    match a {
        Some(x) => Some(json_view(*x)),
        None => None,
    }
}

// ---------------------------------------------------------------------------
// Reading a JSON line
// ---------------------------------------------------------------------------

#[verifier::external_type_specification]
#[verifier::external_body]
pub struct ExJsonValue(serde_json::Value);

/// What `serde_json::from_str::<serde_json::Value>` reads from `raw`:
/// the value (numbers by their `Display` text, objects with their members
/// in the map's order), or nothing when `raw` is not one JSON value.
pub uninterp spec fn json_line_of(raw: Seq<char>) -> Option<JsonView>;

/// `serde_json::from_str::<serde_json::Value>` of one line, converted
/// to a [`Json`]; the result is the named `json_line_of` of the line.
#[verifier::external_body]
pub(crate) fn parse_json_line(raw: &str) -> (r: Result<Json, serde_json::Error>)
    ensures
        match r {
            Ok(j) => json_line_of(raw@) == Some(json_view(j)),
            Err(_) => json_line_of(raw@) is None,
        },
{
    match serde_json::from_str::<serde_json::Value>(raw) {
        Ok(v) => Ok(json_of_value(&v)),
        Err(e) => Err(e),
    }
}

/// The conversion half of [`parse_json_line`]: a `serde_json::Value`
/// rebuilt as a [`Json`], variant by variant (a number by its `Display`
/// text).
#[verifier::external_body]
fn json_of_value(v: &serde_json::Value) -> Json {
    match v {
        serde_json::Value::Null => Json::Null,
        serde_json::Value::Bool(b) => Json::Bool(*b),
        serde_json::Value::Number(n) => Json::Number(n.to_string()),
        serde_json::Value::String(t) => Json::Str(t.clone()),
        serde_json::Value::Array(a) => Json::Array(a.iter().map(json_of_value).collect()),
        serde_json::Value::Object(m) => Json::Object(m.iter().map(|(k, x)| (k.clone(), json_of_value(x))).collect()),
    }
}

} // verus!
