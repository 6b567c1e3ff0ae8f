use sniffcss::storage::{CdpCookieFields, Cookie, KeyValue, OriginState, PageStateFields, StorageState};

fn sample() -> StorageState {
    StorageState {
        cookies: vec![Cookie {
            name: "laravel_session".into(),
            value: "abc".into(),
            domain: Some("localhost".into()),
            path: Some("/".into()),
            expires: None,
            http_only: true,
            secure: false,
            same_site: Some("Lax".into()),
        }],
        origins: vec![OriginState {
            origin: "http://localhost:10011".into(),
            local_storage: vec![KeyValue { name: "theme".into(), value: "dark".into() }],
        }],
    }
}

#[test]
fn cdp_cookies_skip_session_expiry_and_normalize_domain() {
    let cookies = sample().to_cdp_cookies();
    assert_eq!(cookies.len(), 1);
    let c = &cookies[0];
    assert_eq!(c.domain.as_deref(), Some("localhost"));
    assert!(c.expires.is_none());
    assert!(c.http_only);
    assert_eq!(c.same_site.as_deref(), Some("Lax"));
}

#[test]
fn cdp_cookies_drop_unscoped() {
    let state = StorageState {
        cookies: vec![Cookie {
            name: "orphan".into(),
            value: "x".into(),
            domain: None,
            path: None,
            expires: None,
            http_only: false,
            secure: false,
            same_site: None,
        }],
        origins: vec![],
    };
    assert!(state.to_cdp_cookies().is_empty());
}

#[test]
fn cdp_cookies_keep_expiring() {
    let mut state = sample();
    state.cookies[0].expires = Some("1800000000".into());
    let c = &state.to_cdp_cookies()[0];
    assert_eq!(c.expires.as_deref(), Some("1800000000"));
}

#[test]
fn cdp_cookies_strip_one_dot_and_unknown_same_site() {
    let mut state = sample();
    state.cookies[0].domain = Some("..example.com".into());
    state.cookies[0].same_site = Some("lax".into());
    state.cookies.push(Cookie { domain: None, path: Some("/app".into()), ..state.cookies[0].clone() });
    let cs = state.to_cdp_cookies();
    assert_eq!(cs.len(), 2);
    assert_eq!(cs[0].domain.as_deref(), Some(".example.com"));
    assert_eq!(cs[0].same_site, None);
    assert_eq!(cs[1].domain, None);
    assert_eq!(cs[1].path.as_deref(), Some("/app"));
}

#[test]
fn init_script_is_origin_guarded() {
    let script = sample().to_init_script().unwrap();
    assert!(script.contains("location.origin !== origin"));
    assert!(script.contains("localStorage.setItem"));
    assert!(script.contains("http://localhost:10011"));
    assert!(script.contains("{\"items\":[[\"theme\",\"dark\"]],\"origin\":\"http://localhost:10011\"}"));
}

#[test]
fn init_script_none_when_no_localstorage() {
    let state = StorageState { cookies: vec![], origins: vec![] };
    assert!(state.to_init_script().is_none());
    let empty = StorageState {
        cookies: vec![],
        origins: vec![OriginState { origin: "http://a".into(), local_storage: vec![] }],
    };
    assert!(empty.to_init_script().is_none());
}

#[test]
fn from_cdp_extracts_cookies_and_page_state() {
    let raw = vec![
        CdpCookieFields {
            name: Some("a".into()),
            value: Some("b".into()),
            domain: Some(".localhost".into()),
            path: Some("/".into()),
            expires: None,
            http_only: Some(true),
            secure: Some(false),
            same_site: Some("Lax".into()),
        },
        CdpCookieFields {
            name: Some("no-value".into()),
            value: None,
            domain: None,
            path: None,
            expires: None,
            http_only: None,
            secure: None,
            same_site: None,
        },
    ];
    let page = PageStateFields {
        origin: Some("http://localhost:10011".into()),
        items: Some(vec![(Some("k".into()), Some("v".into())), (None, Some("w".into()))]),
    };
    let state = StorageState::from_cdp(raw, Some(page));
    assert_eq!(state.cookies.len(), 1);
    assert_eq!(state.cookies[0].domain.as_deref(), Some(".localhost"));
    assert_eq!(state.cookies[0].expires, None);
    assert!(state.cookies[0].http_only);
    assert_eq!(state.origins.len(), 1);
    assert_eq!(state.origins[0].local_storage.len(), 1);
    assert_eq!(state.origins[0].local_storage[0].value, "v");
    let none = StorageState::from_cdp(vec![], Some(PageStateFields { origin: Some("o".into()), items: Some(vec![]) }));
    assert!(none.origins.is_empty());
}
