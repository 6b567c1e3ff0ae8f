//! Persistent session state: cookies and per-origin `localStorage`, in a
//! Playwright `storageState`-style shape.
//!
//! The state is restored into a fresh browser session before navigation:
//! cookies through `Network.setCookies` (the parameters built here) and
//! `localStorage` through an init script that runs before the page's own
//! scripts (the script built here). After a login performed through
//! actions, the state is read back from what the browser reports.
use crate::text::{chars_of, eq_str, push_str, slice_of, string_of};
use vstd::prelude::*;

verus! {

/// A single HTTP cookie.
///
/// `expires` is the expiry in Unix seconds, kept as the text of the JSON
/// number, and only when that number is positive: a session cookie has
/// none. Whether a number is positive is a floating-point judgement made
/// where the number is read.
#[derive(Debug, Clone, PartialEq, Eq)]
pub struct Cookie {
    pub name: String,
    pub value: String,
    pub domain: Option<String>,
    pub path: Option<String>,
    pub expires: Option<String>,
    pub http_only: bool,
    pub secure: bool,
    /// One of `Strict` | `Lax` | `None` (CDP casing) when it is to be kept.
    pub same_site: Option<String>,
}

/// One cookie of the `cookies` parameter of CDP `Network.setCookies`.
#[derive(Debug, Clone, PartialEq, Eq)]
pub struct CookieParam {
    pub name: String,
    pub value: String,
    pub domain: Option<String>,
    pub path: Option<String>,
    pub expires: Option<String>,
    pub http_only: bool,
    pub secure: bool,
    pub same_site: Option<String>,
}

/// A single `localStorage` key/value pair for one origin.
#[derive(Debug, Clone, PartialEq, Eq)]
pub struct KeyValue {
    pub name: String,
    pub value: String,
}

/// The `localStorage` contents of one origin.
#[derive(Debug, Clone, PartialEq, Eq)]
pub struct OriginState {
    /// e.g. `http://localhost:10011`.
    pub origin: String,
    pub local_storage: Vec<KeyValue>,
}

/// A persisted session: cookies and per-origin `localStorage`.
#[derive(Debug, Clone, PartialEq, Eq)]
pub struct StorageState {
    pub cookies: Vec<Cookie>,
    pub origins: Vec<OriginState>,
}

/// What the browser reports of one cookie (`Network.getAllCookies`): each
/// field when it has the expected JSON type, `expires` only when it is a
/// positive number.
#[derive(Debug, Clone, PartialEq, Eq)]
pub struct CdpCookieFields {
    pub name: Option<String>,
    pub value: Option<String>,
    pub domain: Option<String>,
    pub path: Option<String>,
    pub expires: Option<String>,
    pub http_only: Option<bool>,
    pub secure: Option<bool>,
    pub same_site: Option<String>,
}

/// What the page reports of itself: `location.origin` and its
/// `localStorage` items, each when it has the expected JSON type (an item's
/// name and value each when it is a string).
#[derive(Debug, Clone, PartialEq, Eq)]
pub struct PageStateFields {
    pub origin: Option<String>,
    pub items: Option<Vec<(Option<String>, Option<String>)>>,
}

// ---------------------------------------------------------------------------
// Views
// ---------------------------------------------------------------------------

pub struct CookieView {
    pub name: Seq<char>,
    pub value: Seq<char>,
    pub domain: Option<Seq<char>>,
    pub path: Option<Seq<char>>,
    pub expires: Option<Seq<char>>,
    pub http_only: bool,
    pub secure: bool,
    pub same_site: Option<Seq<char>>,
}

pub open spec fn ov(o: Option<String>) -> Option<Seq<char>> {
    match o {
        Some(s) => Some(s@),
        None => None,
    }
}

pub open spec fn cookie_view(c: Cookie) -> CookieView {
    CookieView {
        name: c.name@,
        value: c.value@,
        domain: ov(c.domain),
        path: ov(c.path),
        expires: ov(c.expires),
        http_only: c.http_only,
        secure: c.secure,
        same_site: ov(c.same_site),
    }
}

pub open spec fn param_view(c: CookieParam) -> CookieView {
    CookieView {
        name: c.name@,
        value: c.value@,
        domain: ov(c.domain),
        path: ov(c.path),
        expires: ov(c.expires),
        http_only: c.http_only,
        secure: c.secure,
        same_site: ov(c.same_site),
    }
}

pub open spec fn cookies_view(s: Seq<Cookie>) -> Seq<CookieView> {
    s.map_values(|c: Cookie| cookie_view(c))
}

pub open spec fn params_view(s: Seq<CookieParam>) -> Seq<CookieView> {
    s.map_values(|c: CookieParam| param_view(c))
}

pub open spec fn items_view(s: Seq<KeyValue>) -> Seq<(Seq<char>, Seq<char>)> {
    s.map_values(|kv: KeyValue| (kv.name@, kv.value@))
}

pub open spec fn origin_view(o: OriginState) -> (Seq<char>, Seq<(Seq<char>, Seq<char>)>) {
    (o.origin@, items_view(o.local_storage@))
}

pub open spec fn origins_view(s: Seq<OriginState>) -> Seq<(Seq<char>, Seq<(Seq<char>, Seq<char>)>)> {
    s.map_values(|o: OriginState| origin_view(o))
}

/// A state by its cookies and its origins.
pub open spec fn state_view(s: StorageState) -> (Seq<CookieView>, Seq<(Seq<char>, Seq<(Seq<char>, Seq<char>)>)>) {
    (cookies_view(s.cookies@), origins_view(s.origins@))
}

// ---------------------------------------------------------------------------
// Restoring cookies
// ---------------------------------------------------------------------------

/// A domain without its one leading `.` (a host-only cookie).
pub open spec fn strip_dot(d: Seq<char>) -> Seq<char> {
    if d.len() > 0 && d[0] == '.' {
        d.drop_first()
    } else {
        d
    }
}

/// The `sameSite` values CDP accepts.
pub open spec fn known_same_site(s: Seq<char>) -> bool {
    s == "Strict"@ || s == "Lax"@ || s == "None"@
}

/// The CDP parameter of a cookie: its domain host-only, its `sameSite`
/// only when CDP accepts it, the rest as it is.
pub open spec fn param_of(c: CookieView) -> CookieView {
    CookieView {
        name: c.name,
        value: c.value,
        domain: match c.domain {
            Some(d) => Some(strip_dot(d)),
            None => None,
        },
        path: c.path,
        expires: c.expires,
        http_only: c.http_only,
        secure: c.secure,
        same_site: match c.same_site {
            Some(s) => if known_same_site(s) {
                Some(s)
            } else {
                None
            },
            None => None,
        },
    }
}

/// The parameters of the cookies that can be restored (those with a
/// domain or a path), in order.
pub open spec fn restorable_params(cs: Seq<CookieView>) -> Seq<CookieView>
    decreases cs.len(),
{
    if cs.len() == 0 {
        Seq::empty()
    } else {
        let p = restorable_params(cs.drop_last());
        let c = cs.last();
        if c.domain is None && c.path is None {
            p
        } else {
            p.push(param_of(c))
        }
    }
}

fn strip_dot_exec(d: &String) -> (r: String)
    ensures
        r@ == strip_dot(d@),
{
    let v = chars_of(d.as_str());
    if v.len() > 0 && v[0] == '.' {
        let w = slice_of(&v, 1, v.len());
        assert(w@ =~= d@.drop_first());
        string_of(w)
    } else {
        d.clone()
    }
}

fn param_exec(c: &Cookie) -> (r: CookieParam)
    ensures
        param_view(r) == param_of(cookie_view(*c)),
{
    let domain = match &c.domain {
        Some(d) => Some(strip_dot_exec(d)),
        None => None,
    };
    let same_site = match &c.same_site {
        Some(s) => {
            let v = chars_of(s.as_str());
            if eq_str(&v, "Strict") || eq_str(&v, "Lax") || eq_str(&v, "None") {
                Some(s.clone())
            } else {
                None
            }
        },
        None => None,
    };
    CookieParam {
        name: c.name.clone(),
        value: c.value.clone(),
        domain,
        path: c.path.clone(),
        expires: c.expires.clone(),
        http_only: c.http_only,
        secure: c.secure,
        same_site,
    }
}

// ---------------------------------------------------------------------------
// Restoring localStorage
// ---------------------------------------------------------------------------

/// The origins that have `localStorage` items, in order.
pub open spec fn nonempty_origins(os: Seq<(Seq<char>, Seq<(Seq<char>, Seq<char>)>)>) -> Seq<
    (Seq<char>, Seq<(Seq<char>, Seq<char>)>),
>
    decreases os.len(),
{
    if os.len() == 0 {
        Seq::empty()
    } else if os.last().1.len() > 0 {
        nonempty_origins(os.drop_last()).push(os.last())
    } else {
        nonempty_origins(os.drop_last())
    }
}

pub open spec fn pairs_view(s: Seq<(String, String)>) -> Seq<(Seq<char>, Seq<char>)> {
    s.map_values(|p: (String, String)| (p.0@, p.1@))
}

pub open spec fn entries_view(e: Seq<(String, Vec<(String, String)>)>) -> Seq<(Seq<char>, Seq<(Seq<char>, Seq<char>)>)> {
    e.map_values(|x: (String, Vec<(String, String)>)| (x.0@, pairs_view(x.1@)))
}

/// The JSON text `serde_json::to_string` writes for the entries
/// `[{"origin": .., "items": [[name, value], ..]}, ..]`.
pub uninterp spec fn storage_payload(entries: Seq<(Seq<char>, Seq<(Seq<char>, Seq<char>)>)>) -> Seq<char>;

/// `serde_json::to_string` of the entries as JSON objects with an
/// `origin` text and an `items` array of `[name, value]` pairs. Its result
/// depends on the entries alone (object members come out sorted); what
/// the text is, is not stated.
#[verifier::external_body]
fn storage_payload_json(entries: &Vec<(String, Vec<(String, String)>)>) -> (r: String)
    ensures
        r@ == storage_payload(entries_view(entries@)),
{
    let values: Vec<serde_json::Value> = entries.iter().map(|(origin, items)| {
        let mut m = serde_json::Map::new();
        m.insert("origin".to_string(), serde_json::Value::from(origin.as_str()));
        let pairs: Vec<serde_json::Value> = items.iter().map(|(k, v)| serde_json::Value::from(vec![k.as_str(), v.as_str()])).collect();
        m.insert("items".to_string(), serde_json::Value::from(pairs));
        serde_json::Value::Object(m)
    }).collect();
    serde_json::to_string(&values).unwrap_or_default()
}

/// The init script that restores each origin's `localStorage` before the
/// page's own scripts run: it only writes the items of the page's own
/// origin and never throws.
pub open spec fn init_script_text(payload: Seq<char>) -> Seq<char> {
    "(() => {\n  try {\n    const entries = "@ + payload
        + ";\n    for (const { origin, items } of entries) {\n      if (location.origin !== origin) continue;\n      for (const [name, value] of items) localStorage.setItem(name, value);\n    }\n  } catch (e) {}\n})()"@
}

fn entry_of(o: &OriginState) -> (r: (String, Vec<(String, String)>))
    ensures
        entries_view(seq![r])[0] == origin_view(*o),
{
    let mut items: Vec<(String, String)> = Vec::new();
    let mut i: usize = 0;
    while i < o.local_storage.len()
        invariant
            i <= o.local_storage.len(),
            pairs_view(items@) =~= items_view(o.local_storage@).take(i as int),
        decreases o.local_storage.len() - i,
    {
        let pair = (o.local_storage[i].name.clone(), o.local_storage[i].value.clone());
        let ghost pre = items@;
        items.push(pair);
        assert(items_view(o.local_storage@)[i as int] == (pair.0@, pair.1@));
        assert(pairs_view(items@) =~= pairs_view(pre).push((pair.0@, pair.1@)));
        assert(pairs_view(items@) =~= items_view(o.local_storage@).take(i + 1));
        i = i + 1;
    }
    assert(items_view(o.local_storage@).take(o.local_storage.len() as int) =~= items_view(o.local_storage@));
    (o.origin.clone(), items)
}

// ---------------------------------------------------------------------------
// Reading the state back from the browser
// ---------------------------------------------------------------------------

/// The cookies the browser reports that have a name and a value, in
/// order; a missing `httpOnly` or `secure` is false.
pub open spec fn cookies_from_cdp(fs: Seq<CdpCookieFields>) -> Seq<CookieView>
    decreases fs.len(),
{
    if fs.len() == 0 {
        Seq::empty()
    } else {
        let p = cookies_from_cdp(fs.drop_last());
        let f = fs.last();
        match (f.name, f.value) {
            (Some(n), Some(v)) => p.push(
                CookieView {
                    name: n@,
                    value: v@,
                    domain: ov(f.domain),
                    path: ov(f.path),
                    expires: ov(f.expires),
                    http_only: match f.http_only {
                        Some(b) => b,
                        None => false,
                    },
                    secure: match f.secure {
                        Some(b) => b,
                        None => false,
                    },
                    same_site: ov(f.same_site),
                },
            ),
            _ => p,
        }
    }
}

/// The items with both a name and a value, in order.
pub open spec fn items_from_cdp(items: Seq<(Option<String>, Option<String>)>) -> Seq<(Seq<char>, Seq<char>)>
    decreases items.len(),
{
    if items.len() == 0 {
        Seq::empty()
    } else {
        let p = items_from_cdp(items.drop_last());
        match items.last() {
            (Some(n), Some(v)) => p.push((n@, v@)),
            _ => p,
        }
    }
}

/// The page's origin with its items, when it reports both and has at
/// least one complete item.
pub open spec fn origins_from_cdp(page: Option<PageStateFields>) -> Seq<(Seq<char>, Seq<(Seq<char>, Seq<char>)>)> {
    match page {
        Some(p) => match (p.origin, p.items) {
            (Some(o), Some(items)) => if items_from_cdp(items@).len() > 0 {
                seq![(o@, items_from_cdp(items@))]
            } else {
                Seq::empty()
            },
            _ => Seq::empty(),
        },
        None => Seq::empty(),
    }
}

impl StorageState {
    /// The `cookies` parameter of CDP `Network.setCookies`: cookies with
    /// no scope (neither domain nor path) cannot be restored and are left
    /// out; a leading `.` of the domain is dropped (host-only); `sameSite`
    /// is kept only when it is `Strict`, `Lax` or `None`.
    pub fn to_cdp_cookies(&self) -> (r: Vec<CookieParam>)
        ensures
            params_view(r@) == restorable_params(cookies_view(self.cookies@)),
    {
        let ghost cv = cookies_view(self.cookies@);
        let mut out: Vec<CookieParam> = Vec::new();
        let mut i: usize = 0;
        assert(cv.take(0) =~= Seq::<CookieView>::empty());
        assert(params_view(out@) =~= Seq::<CookieView>::empty());
        while i < self.cookies.len()
            invariant
                i <= self.cookies.len(),
                cv == cookies_view(self.cookies@),
                params_view(out@) == restorable_params(cv.take(i as int)),
            decreases self.cookies.len() - i,
        {
            assert(cv.take(i + 1).drop_last() =~= cv.take(i as int));
            assert(cv.take(i + 1).last() == cookie_view(self.cookies@[i as int]));
            let c = &self.cookies[i];
            if c.domain.is_some() || c.path.is_some() {
                let p = param_exec(c);
                let ghost pre = out@;
                out.push(p);
                assert(params_view(out@) =~= params_view(pre).push(param_view(p)));
            }
            i = i + 1;
        }
        assert(cv.take(self.cookies.len() as int) =~= cv);
        out
    }

    /// One init script restoring the `localStorage` of every origin that
    /// has items; none when there is nothing to restore.
    pub fn to_init_script(&self) -> (r: Option<String>)
        ensures
            r is None <==> forall|i: int|
                0 <= i < self.origins@.len() ==> (#[trigger] self.origins@[i]).local_storage@.len() == 0,
            r matches Some(s) ==> s@ == init_script_text(
                storage_payload(nonempty_origins(origins_view(self.origins@))),
            ),
    {
        let ghost ovs = origins_view(self.origins@);
        let mut entries: Vec<(String, Vec<(String, String)>)> = Vec::new();
        let mut i: usize = 0;
        assert(ovs.take(0) =~= Seq::<(Seq<char>, Seq<(Seq<char>, Seq<char>)>)>::empty());
        assert(entries_view(entries@) =~= Seq::<(Seq<char>, Seq<(Seq<char>, Seq<char>)>)>::empty());
        while i < self.origins.len()
            invariant
                i <= self.origins.len(),
                ovs == origins_view(self.origins@),
                entries_view(entries@) == nonempty_origins(ovs.take(i as int)),
                entries@.len() == 0 <==> forall|j: int|
                    0 <= j < i ==> (#[trigger] self.origins@[j]).local_storage@.len() == 0,
            decreases self.origins.len() - i,
        {
            assert(ovs.take(i + 1).drop_last() =~= ovs.take(i as int));
            assert(ovs.take(i + 1).last() == origin_view(self.origins@[i as int]));
            assert(items_view(self.origins@[i as int].local_storage@).len() == self.origins@[i as int].local_storage@.len());
            if self.origins[i].local_storage.len() > 0 {
                let e = entry_of(&self.origins[i]);
                let ghost pre = entries@;
                entries.push(e);
                assert(entries_view(entries@) =~= entries_view(pre).push(entries_view(seq![e])[0]));
            }
            i = i + 1;
        }
        assert(ovs.take(self.origins.len() as int) =~= ovs);
        if entries.len() == 0 {
            return None;
        }
        let payload = storage_payload_json(&entries);
        let mut v: Vec<char> = Vec::new();
        push_str(&mut v, "(() => {\n  try {\n    const entries = ");
        push_str(&mut v, payload.as_str());
        push_str(
            &mut v,
            ";\n    for (const { origin, items } of entries) {\n      if (location.origin !== origin) continue;\n      for (const [name, value] of items) localStorage.setItem(name, value);\n    }\n  } catch (e) {}\n})()",
        );
        Some(string_of(v))
    }

    /// The state the browser reports: its cookies that have a name and a
    /// value, and the page's origin with its complete `localStorage` items
    /// when it has any.
    pub fn from_cdp(cookies: Vec<CdpCookieFields>, page_state: Option<PageStateFields>) -> (r: StorageState)
        ensures
            state_view(r) == (cookies_from_cdp(cookies@), origins_from_cdp(page_state)),
    {
        let mut out: Vec<Cookie> = Vec::new();
        let mut i: usize = 0;
        assert(cookies@.take(0) =~= Seq::<CdpCookieFields>::empty());
        assert(cookies_view(out@) =~= Seq::<CookieView>::empty());
        while i < cookies.len()
            invariant
                i <= cookies.len(),
                cookies_view(out@) == cookies_from_cdp(cookies@.take(i as int)),
            decreases cookies.len() - i,
        {
            assert(cookies@.take(i + 1).drop_last() =~= cookies@.take(i as int));
            assert(cookies@.take(i + 1).last() == cookies@[i as int]);
            let f = &cookies[i];
            match (&f.name, &f.value) {
                (Some(n), Some(v)) => {
                    let c = Cookie {
                        name: n.clone(),
                        value: v.clone(),
                        domain: f.domain.clone(),
                        path: f.path.clone(),
                        expires: f.expires.clone(),
                        http_only: match f.http_only {
                            Some(b) => b,
                            None => false,
                        },
                        secure: match f.secure {
                            Some(b) => b,
                            None => false,
                        },
                        same_site: f.same_site.clone(),
                    };
                    let ghost pre = out@;
                    out.push(c);
                    assert(cookies_view(out@) =~= cookies_view(pre).push(cookie_view(c)));
                },
                _ => {},
            }
            i = i + 1;
        }
        assert(cookies@.take(cookies.len() as int) =~= cookies@);
        let mut origins: Vec<OriginState> = Vec::new();
        assert(origins_view(origins@) =~= Seq::<(Seq<char>, Seq<(Seq<char>, Seq<char>)>)>::empty());
        match page_state {
            Some(p) => match (p.origin, p.items) {
                (Some(o), Some(items)) => {
                    let mut kept: Vec<KeyValue> = Vec::new();
                    let mut k: usize = 0;
                    assert(items@.take(0) =~= Seq::<(Option<String>, Option<String>)>::empty());
                    assert(items_view(kept@) =~= Seq::<(Seq<char>, Seq<char>)>::empty());
                    while k < items.len()
                        invariant
                            k <= items.len(),
                            items_view(kept@) == items_from_cdp(items@.take(k as int)),
                        decreases items.len() - k,
                    {
                        assert(items@.take(k + 1).drop_last() =~= items@.take(k as int));
                        assert(items@.take(k + 1).last() == items@[k as int]);
                        match (&items[k].0, &items[k].1) {
                            (Some(n), Some(v)) => {
                                let kv = KeyValue { name: n.clone(), value: v.clone() };
                                let ghost pre = kept@;
                                kept.push(kv);
                                assert(items_view(kept@) =~= items_view(pre).push((kv.name@, kv.value@)));
                            },
                            _ => {},
                        }
                        k = k + 1;
                    }
                    assert(items@.take(items.len() as int) =~= items@);
                    if kept.len() > 0 {
                        let st = OriginState { origin: o, local_storage: kept };
                        origins.push(st);
                        assert(origins_view(origins@) =~= seq![origin_view(st)]);
                    }
                },
                _ => {},
            },
            None => {},
        }
        StorageState { cookies: out, origins }
    }
}


// ---------------------------------------------------------------------------
// Laws
// ---------------------------------------------------------------------------

/// `p` is the restored form of cookie `c`: name, value, path, expiry,
/// `httpOnly` and `secure` unchanged; the domain without one leading `.`;
/// `sameSite` kept when it is `Strict`, `Lax` or `None`, else dropped.
pub open spec fn restores(p: CookieView, c: CookieView) -> bool {
    &&& p.name == c.name
    &&& p.value == c.value
    &&& p.path == c.path
    &&& p.expires == c.expires
    &&& p.http_only == c.http_only
    &&& p.secure == c.secure
    &&& match c.domain {
        Some(d) => if d.len() > 0 && d[0] == '.' {
            p.domain == Some(d.subrange(1, d.len() as int))
        } else {
            p.domain == Some(d)
        },
        None => p.domain is None,
    }
    &&& match c.same_site {
        Some(s) => if s == "Strict"@ || s == "Lax"@ || s == "None"@ {
            p.same_site == Some(s)
        } else {
            p.same_site is None
        },
        None => p.same_site is None,
    }
}

/// Restoring cookies keeps every cookie that has a domain or a path, in
/// order, each as its restored form (see `restores`), and nothing else:
/// the `i`-th parameter restores the `i`-th scoped cookie.
pub proof fn lemma_restorable_params(cs: Seq<CookieView>)
    ensures
        restorable_params(cs).len() <= cs.len(),
        forall|i: int|
            0 <= i < restorable_params(cs).len() ==> exists|j: int|
                0 <= j < cs.len() && (cs[j].domain is Some || cs[j].path is Some) && restores(
                    #[trigger] restorable_params(cs)[i],
                    cs[j],
                ),
        forall|j: int|
            0 <= j < cs.len() && (#[trigger] cs[j].domain is Some || cs[j].path is Some) ==> exists|i: int|
                0 <= i < restorable_params(cs).len() && restores(restorable_params(cs)[i], cs[j]),
    decreases cs.len(),
{
    if cs.len() > 0 {
        let p = cs.drop_last();
        let c = cs.last();
        lemma_restorable_params(p);
        let rp = restorable_params(p);
        let r = restorable_params(cs);
        if let Some(d) = c.domain {
            assert(d.drop_first() =~= d.subrange(1, d.len() as int));
        }
        assert forall|i: int| 0 <= i < r.len() implies exists|j: int|
            0 <= j < cs.len() && (cs[j].domain is Some || cs[j].path is Some) && restores(#[trigger] r[i], cs[j]) by {
            if i < rp.len() {
                assert(r[i] == rp[i]);
                let j = choose|j: int|
                    0 <= j < p.len() && (p[j].domain is Some || p[j].path is Some) && restores(rp[i], p[j]);
                assert(cs[j] == p[j]);
            } else {
                assert(r[i] == param_of(c));
                assert(cs[cs.len() - 1] == c);
                assert(restores(r[i], cs[cs.len() - 1]));
            }
        }
        assert forall|j: int| 0 <= j < cs.len() && (#[trigger] cs[j].domain is Some || cs[j].path is Some) implies exists|i: int|
            0 <= i < r.len() && restores(r[i], cs[j]) by {
            if j < p.len() {
                assert(cs[j] == p[j]);
                assert(p[j].domain is Some || p[j].path is Some);
                let i = choose|i: int| 0 <= i < rp.len() && restores(rp[i], p[j]);
                assert(r[i] == rp[i]);
            } else {
                assert(cs[j] == c);
                assert(r[r.len() - 1] == param_of(c));
                assert(restores(r[r.len() - 1], c));
            }
        }
    }
}

/// `c` is the cookie read back from the report `f`: `f` has a name and a
/// value, and `c` has them and every other reported field, a missing
/// `httpOnly` or `secure` reading as false.
pub open spec fn read_back(c: CookieView, f: CdpCookieFields) -> bool {
    &&& f.name matches Some(n) && c.name == n@
    &&& f.value matches Some(v) && c.value == v@
    &&& c.domain == ov(f.domain)
    &&& c.path == ov(f.path)
    &&& c.expires == ov(f.expires)
    &&& c.http_only == (f.http_only == Some(true))
    &&& c.secure == (f.secure == Some(true))
    &&& c.same_site == ov(f.same_site)
}

/// Reading the state back keeps, in order, each reported cookie that has a
/// name and a value, with all its fields, and nothing else.
pub proof fn lemma_cookies_from_cdp(fs: Seq<CdpCookieFields>)
    ensures
        cookies_from_cdp(fs).len() <= fs.len(),
        forall|i: int|
            0 <= i < cookies_from_cdp(fs).len() ==> exists|j: int|
                0 <= j < fs.len() && read_back(#[trigger] cookies_from_cdp(fs)[i], fs[j]),
        forall|j: int|
            0 <= j < fs.len() && (#[trigger] fs[j].name is Some && fs[j].value is Some) ==> exists|i: int|
                0 <= i < cookies_from_cdp(fs).len() && read_back(cookies_from_cdp(fs)[i], fs[j]),
    decreases fs.len(),
{
    if fs.len() > 0 {
        let p = fs.drop_last();
        lemma_cookies_from_cdp(p);
        let r = cookies_from_cdp(fs);
        let rp = cookies_from_cdp(p);
        let f = fs.last();
        assert forall|i: int| 0 <= i < r.len() implies exists|j: int| 0 <= j < fs.len() && read_back(#[trigger] r[i], fs[j]) by {
            if i < rp.len() {
                assert(r[i] == rp[i]);
                let j = choose|j: int| 0 <= j < p.len() && read_back(rp[i], p[j]);
                assert(fs[j] == p[j]);
            } else {
                assert(fs[fs.len() - 1] == f);
                assert(read_back(r[i], f));
            }
        }
        assert forall|j: int| 0 <= j < fs.len() && (#[trigger] fs[j].name is Some && fs[j].value is Some) implies exists|i: int|
            0 <= i < r.len() && read_back(r[i], fs[j]) by {
            if j < p.len() {
                assert(fs[j] == p[j]);
                assert(p[j].name is Some && p[j].value is Some);
                let i = choose|i: int| 0 <= i < rp.len() && read_back(rp[i], p[j]);
                assert(r[i] == rp[i]);
            } else {
                assert(fs[j] == f);
                assert(read_back(r[r.len() - 1], f));
            }
        }
    }
}

} // verus!
